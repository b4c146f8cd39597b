//! The kinds of classifier and the keyword each one is declared with.

use vstd::prelude::*;
use vstd::string::*;
use crate::render::Render;

verus! {

/// The supported kinds of classifier.
#[derive(Clone, Copy, Debug, PartialEq, Eq, Structural)]
pub enum ClassifierKind {
    Class,
    DataType,
    Enumeration,
    Interface,
    Primitive,
}

impl ClassifierKind {
    /// The keyword that declares a classifier of this kind.
    pub open spec fn keyword(self) -> Seq<char> {
        match self {
            ClassifierKind::Class => "class"@,
            ClassifierKind::DataType => "dataType"@,
            ClassifierKind::Enumeration => "enumeration"@,
            ClassifierKind::Interface => "interface"@,
            ClassifierKind::Primitive => "primitive"@,
        }
    }

    /// Returns the keyword of this kind.
    pub fn kind(self) -> (word: &'static str)
        ensures
            word@ == self.keyword(),
    {
        match self {
            ClassifierKind::Class => "class",
            ClassifierKind::DataType => "dataType",
            ClassifierKind::Enumeration => "enumeration",
            ClassifierKind::Interface => "interface",
            ClassifierKind::Primitive => "primitive",
        }
    }
}

/// A kind renders as its keyword.
impl Render for ClassifierKind {
    open spec fn rendering(&self) -> Seq<char> {
        self.keyword()
    }

    fn render(&self) -> (text: String) {
        String::from_str(self.kind())
    }
}

} // verus!
