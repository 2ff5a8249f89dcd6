//! Text components: what a message shown to a user is made of.
use vstd::prelude::*;

verus! {

/// What every component has: the components that follow it.
#[derive(Debug)]
pub struct BaseComponent {
    pub siblings: Vec<Component>,
}

impl BaseComponent {
    /// A base with no siblings.
    pub fn new() -> (b: Self)
        ensures
            b.siblings@.len() == 0,
    {
        BaseComponent { siblings: Vec::new() }
    }
}

/// A component of plain text.
#[derive(Debug)]
pub struct TextComponent {
    pub base: BaseComponent,
    pub text: String,
}

impl TextComponent {
    pub fn new(text: String) -> (c: Self)
        ensures
            c.text == text,
            c.base.siblings@.len() == 0,
    {
        TextComponent { base: BaseComponent::new(), text }
    }
}

/// A component of either kind.
#[derive(Debug)]
pub enum Component {
    Text(TextComponent),
    Translatable(TranslatableComponent),
}

/// An argument of a translatable component.
#[derive(Debug)]
pub enum StringOrComponent {
    String(String),
    Component(Component),
}

/// A component whose text is looked up under a key and filled in with
/// arguments.
#[derive(Debug)]
pub struct TranslatableComponent {
    pub base: BaseComponent,
    pub key: String,
    pub args: Vec<StringOrComponent>,
}

impl TranslatableComponent {
    /// A component for `key` with `args`, and no siblings.
    pub fn new(key: String, args: Vec<StringOrComponent>) -> (c: Self)
        ensures
            c.key == key,
            c.args == args,
            c.base.siblings@.len() == 0,
    {
        TranslatableComponent { base: BaseComponent::new(), key, args }
    }
}

} // verus!
