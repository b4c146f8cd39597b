//! Classifiers and the text that declares them.

use vstd::prelude::*;
use vstd::string::*;
use crate::kind::ClassifierKind;
use crate::entries::ascending;
use crate::meta::MetaMap;
use crate::render::Render;
use crate::text::{joined, led_by};

verus! {

/// One classifier declaration.
///
/// The annotations, attributes and operations are values that render
/// themselves; the classifier places their text.
#[derive(Clone, Debug, PartialEq)]
pub struct Classifier<'input, M, A, O> {
    /// The annotations by name.
    pub meta: MetaMap<'input, M>,
    /// Whether the classifier is abstract. An interface is abstract without
    /// saying so.
    pub is_abstract: bool,
    /// Whether the classifier is final.
    pub is_final: bool,
    /// The kind, which selects the keyword.
    pub kind: ClassifierKind,
    /// The name. A classifier is meant to have one that is not empty.
    pub name: &'input str,
    /// A second name to refer to the classifier by.
    pub id: Option<&'input str>,
    /// The stereotypes, in the order in which they are shown.
    pub stereotypes: Vec<&'input str>,
    /// The attributes, in the order in which they are listed.
    pub attributes: Vec<A>,
    /// The operations, in the order in which they are listed.
    pub operations: Vec<O>,
}

/// A classifier as plain text: what its declaration is made of.
pub struct ClassifierView {
    /// The annotations from the first name to the last, each a name and the
    /// text of its value.
    pub meta: Seq<(Seq<char>, Seq<char>)>,
    pub is_abstract: bool,
    pub is_final: bool,
    pub kind: ClassifierKind,
    pub name: Seq<char>,
    pub id: Option<Seq<char>>,
    pub stereotypes: Seq<Seq<char>>,
    /// The text of each attribute.
    pub attributes: Seq<Seq<char>>,
    /// The text of each operation.
    pub operations: Seq<Seq<char>>,
}

impl ClassifierView {
    /// The text of each annotation's value, in the order of the names.
    pub open spec fn meta_values(self) -> Seq<Seq<char>> {
        self.meta.map_values(|entry: (Seq<char>, Seq<char>)| entry.1)
    }

    /// The attributes and then the operations.
    pub open spec fn members(self) -> Seq<Seq<char>> {
        self.attributes + self.operations
    }

    /// The line of annotations with its line break, or nothing where there
    /// are no annotations.
    pub open spec fn annotation_line(self) -> Seq<char> {
        if self.meta.len() == 0 {
            Seq::empty()
        } else {
            "#["@ + joined(self.meta_values(), ", "@) + "]\n"@
        }
    }

    /// Whether the declaration says `abstract`: an interface never does.
    pub open spec fn shows_abstract(self) -> bool {
        self.is_abstract && self.kind != ClassifierKind::Interface
    }

    /// The modifiers, each with a space behind it: `abstract`, then `final`.
    pub open spec fn modifiers(self) -> Seq<char> {
        (if self.shows_abstract() {
            "abstract "@
        } else {
            Seq::empty()
        }) + (if self.is_final {
            "final "@
        } else {
            Seq::empty()
        })
    }

    /// The stereotypes between guillemets with a space behind them, or
    /// nothing where there are no stereotypes.
    pub open spec fn stereotype_list(self) -> Seq<char> {
        if self.stereotypes.len() == 0 {
            Seq::empty()
        } else {
            "«"@ + joined(self.stereotypes, ", "@) + "» "@
        }
    }

    /// The keyword and the name, and the second name where there is one.
    pub open spec fn header(self) -> Seq<char> {
        self.kind.keyword() + " "@ + self.name + match self.id {
            Some(id) => " as "@ + id,
            None => Seq::empty(),
        }
    }

    /// The members between braces, each on a line of its own, or nothing
    /// where there are no members.
    pub open spec fn member_block(self) -> Seq<char> {
        if self.members().len() == 0 {
            Seq::empty()
        } else {
            " {"@ + led_by(self.attributes, "\n  "@) + led_by(self.operations, "\n  "@) + "\n}"@
        }
    }

    /// The whole declaration.
    pub open spec fn rendering(self) -> Seq<char> {
        self.annotation_line() + self.modifiers() + self.stereotype_list() + self.header()
            + self.member_block()
    }
}

/// The text of each of `items`.
pub open spec fn renderings<T: Render>(items: Seq<T>) -> Seq<Seq<char>> {
    items.map_values(|item: T| item.rendering())
}

/// The characters of each of `items`.
pub open spec fn views(items: Seq<&str>) -> Seq<Seq<char>> {
    items.map_values(|item: &str| item@)
}

impl<'input, M: Render, A: Render, O: Render> View for Classifier<'input, M, A, O> {
    type V = ClassifierView;

    open spec fn view(&self) -> ClassifierView {
        ClassifierView {
            meta: self.meta@.map_values(|entry: (Seq<char>, M)| (entry.0, entry.1.rendering())),
            is_abstract: self.is_abstract,
            is_final: self.is_final,
            kind: self.kind,
            name: self.name@,
            id: match self.id {
                Some(id) => Some(id@),
                None => None,
            },
            stereotypes: views(self.stereotypes@),
            attributes: renderings(self.attributes@),
            operations: renderings(self.operations@),
        }
    }
}

/// Appends to `out` the text of each of `items` from offset `from` on, in
/// order, each one after a copy of `lead`.
fn append_led_by<T: Render>(out: &mut String, items: &Vec<T>, from: usize, lead: &str)
    requires
        from <= items@.len(),
    ensures
        final(out)@ == old(out)@ + led_by(renderings(items@).skip(from as int), lead@),
{
    let ghost texts = renderings(items@).skip(from as int);
    let ghost start = out@;
    let mut at: usize = from;
    assert(texts.take(0) =~= Seq::empty());
    while at < items.len()
        invariant
            from <= at <= items.len(),
            texts == renderings(items@).skip(from as int),
            out@ == start + led_by(texts.take(at - from), lead@),
        decreases items.len() - at,
    {
        let text = items[at].render();
        out.append(lead);
        out.append(text.as_str());
        proof {
            let upto = texts.take(at - from + 1);
            assert(upto.drop_last() =~= texts.take(at - from));
            assert(upto.last() == text@);
            assert(out@ =~= start + led_by(upto, lead@));
        }
        at += 1;
    }
    assert(texts.take(at - from) =~= texts);
}

impl<'input, M: Render, A: Render, O: Render> Classifier<'input, M, A, O> {
    /// Appends the line of annotations.
    fn append_annotation_line(&self, out: &mut String)
        ensures
            final(out)@ == old(out)@ + self@.annotation_line(),
            ascending(self@.meta),
    {
        let ghost start = out@;
        let ghost texts = self@.meta_values();
        let count = self.meta.len();
        proof {
            let entries = self@.meta;
            assert forall|i: int, j: int| 0 <= i < j < entries.len() implies crate::order::name_before(
                #[trigger] entries[i].0,
                #[trigger] entries[j].0,
            ) by {
                assert(entries[i].0 == self.meta@[i].0);
                assert(entries[j].0 == self.meta@[j].0);
            }
        }
        if count > 0 {
            out.append("#[");
            let first = self.meta.value_at(0).render();
            out.append(first.as_str());
            let mut at: usize = 1;
            assert(texts.skip(1).take(0) =~= Seq::empty());
            while at < count
                invariant
                    1 <= at <= count,
                    count == self.meta@.len(),
                    texts == self@.meta_values(),
                    out@ == start + "#["@ + texts[0] + led_by(texts.skip(1).take(at - 1), ", "@),
                decreases count - at,
            {
                let text = self.meta.value_at(at).render();
                out.append(", ");
                out.append(text.as_str());
                proof {
                    let upto = texts.skip(1).take(at as int);
                    assert(upto.drop_last() =~= texts.skip(1).take(at - 1));
                    assert(upto.last() == text@);
                    assert(out@ =~= start + "#["@ + texts[0] + led_by(upto, ", "@));
                }
                at += 1;
            }
            out.append("]\n");
            proof {
                assert(texts.skip(1).take(at - 1) =~= texts.skip(1));
                assert(out@ =~= start + self@.annotation_line());
            }
        } else {
            assert(out@ =~= start + self@.annotation_line());
        }
    }

    /// Appends the modifiers.
    fn append_modifiers(&self, out: &mut String)
        ensures
            final(out)@ == old(out)@ + self@.modifiers(),
    {
        let ghost start = out@;
        if self.is_abstract && self.kind != ClassifierKind::Interface {
            out.append("abstract ");
        }
        if self.is_final {
            out.append("final ");
        }
        assert(out@ =~= start + self@.modifiers());
    }

    /// Appends the stereotypes.
    fn append_stereotype_list(&self, out: &mut String)
        ensures
            final(out)@ == old(out)@ + self@.stereotype_list(),
    {
        let ghost start = out@;
        if self.stereotypes.len() > 0 {
            out.append("«");
            out.append(self.stereotypes[0]);
            append_led_by(out, &self.stereotypes, 1, ", ");
            out.append("» ");
            proof {
                assert(renderings(self.stereotypes@) =~= views(self.stereotypes@));
                assert(out@ =~= start + self@.stereotype_list());
            }
        } else {
            assert(out@ =~= start + self@.stereotype_list());
        }
    }

    /// Appends the keyword and the names.
    fn append_header(&self, out: &mut String)
        ensures
            final(out)@ == old(out)@ + self@.header(),
    {
        let ghost start = out@;
        out.append(self.kind.kind());
        out.append(" ");
        out.append(self.name);
        if let Some(id) = self.id {
            out.append(" as ");
            out.append(id);
        }
        assert(out@ =~= start + self@.header());
    }

    /// Appends the members between their braces.
    fn append_member_block(&self, out: &mut String)
        ensures
            final(out)@ == old(out)@ + self@.member_block(),
    {
        let ghost start = out@;
        if self.attributes.len() > 0 || self.operations.len() > 0 {
            out.append(" {");
            append_led_by(out, &self.attributes, 0, "\n  ");
            append_led_by(out, &self.operations, 0, "\n  ");
            out.append("\n}");
            proof {
                assert(renderings(self.attributes@).skip(0) =~= self@.attributes);
                assert(renderings(self.operations@).skip(0) =~= self@.operations);
                assert(out@ =~= start + self@.member_block());
            }
        } else {
            assert(out@ =~= start + self@.member_block());
        }
    }
}

impl<'input, M: Render, A: Render, O: Render> Render for Classifier<'input, M, A, O> {
    /// The declaration of the classifier.
    open spec fn rendering(&self) -> Seq<char> {
        self@.rendering()
    }

    /// Writes the declaration of the classifier: the line of annotations,
    /// the modifiers, the stereotypes, the keyword with the names, and the
    /// members.
    ///
    /// The annotations are written in the order of their names, which is
    /// the order in which the view holds them.
    fn render(&self) -> (text: String)
        ensures
            ascending(self@.meta),
    {
        let mut out = String::new();
        self.append_annotation_line(&mut out);
        self.append_modifiers(&mut out);
        self.append_stereotype_list(&mut out);
        self.append_header(&mut out);
        self.append_member_block(&mut out);
        assert(out@ =~= self@.rendering());
        out
    }
}

} // verus!
