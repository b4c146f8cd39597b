//! Values that render themselves to text.

use vstd::prelude::*;
use vstd::string::*;

verus! {

/// A value with a textual form of its own.
///
/// A classifier treats its annotations, attributes and operations as
/// values of this kind: it places their text and never looks inside.
pub trait Render {
    /// The text that this value renders to.
    spec fn rendering(&self) -> Seq<char>;

    /// Renders this value.
    fn render(&self) -> (text: String)
        ensures
            text@ == self.rendering(),
    ;
}

/// Text that is rendered already stands for itself.
impl Render for String {
    open spec fn rendering(&self) -> Seq<char> {
        self@
    }

    fn render(&self) -> (text: String) {
        self.clone()
    }
}

/// Text that is rendered already stands for itself.
impl<'a> Render for &'a str {
    open spec fn rendering(&self) -> Seq<char> {
        self@
    }

    fn render(&self) -> (text: String) {
        String::from_str(*self)
    }
}

} // verus!
