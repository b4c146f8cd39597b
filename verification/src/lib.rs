//! Canonical textual notation for UML classifiers.
//!
//! A [`Classifier`] describes a class, an interface, an enumeration, a data
//! type or a primitive. Rendering it gives its declaration as text: a line
//! of annotations, the modifiers, the stereotypes between guillemets, the
//! keyword with the names, and the members between braces, each part left
//! out where the classifier has nothing to put in it.
//!
//! ```text
//! #[since 1.2]
//! abstract «Entity» class Order as o {
//!   id: UUID
//!   pay()
//! }
//! ```
//!
//! What a declaration is, character by character, is said by
//! [`ClassifierView::rendering`], and [`Render::render`] is proved to
//! write exactly that. The modules `layout` and `absence` prove what
//! follows from it: where each part stands, that the order of stereotypes
//! and members is kept, and which marks a declaration cannot contain.
//!
//! Annotations are held in a [`MetaMap`], which keeps them in the order of
//! their names however they were put in.

pub mod absence;
pub mod classifier;
pub mod entries;
pub mod kind;
pub mod layout;
pub mod meta;
pub mod order;
pub mod render;
pub mod text;

pub use classifier::{Classifier, ClassifierView};
pub use kind::ClassifierKind;
pub use meta::MetaMap;
pub use render::Render;
