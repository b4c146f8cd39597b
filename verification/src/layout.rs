//! Where the parts of a declaration stand in its text, and in which order.

use vstd::prelude::*;
use crate::classifier::ClassifierView;
use crate::text::{
    joined, joined_offset, led_by, led_by_offset, lemma_joined_ordered, lemma_joined_places,
    lemma_led_by_ordered, lemma_led_by_places, lemma_led_by_split, lemma_occurs_within, occurs_at,
};

verus! {

impl ClassifierView {
    /// Where the modifiers start: behind the line of annotations.
    pub open spec fn modifiers_offset(self) -> int {
        self.annotation_line().len() as int
    }

    /// Where the list of stereotypes starts: behind the modifiers.
    pub open spec fn stereotype_list_offset(self) -> int {
        self.modifiers_offset() + self.modifiers().len()
    }

    /// Where the keyword stands: behind the list of stereotypes.
    pub open spec fn keyword_offset(self) -> int {
        self.stereotype_list_offset() + self.stereotype_list().len()
    }

    /// Where the name stands: behind the keyword and a space.
    pub open spec fn name_offset(self) -> int {
        self.keyword_offset() + self.kind.keyword().len() + " "@.len()
    }

    /// Where the block of members starts: behind the header.
    pub open spec fn member_block_offset(self) -> int {
        self.keyword_offset() + self.header().len()
    }

    /// Where the text of annotation `i` stands.
    pub open spec fn meta_value_offset(self, i: int) -> int {
        "#["@.len() + joined_offset(self.meta_values(), ", "@, i)
    }

    /// Where stereotype `i` stands.
    pub open spec fn stereotype_offset(self, i: int) -> int {
        self.stereotype_list_offset() + "«"@.len() + joined_offset(self.stereotypes, ", "@, i)
    }

    /// Where member `i` stands, the attributes counted first and then the
    /// operations.
    pub open spec fn member_offset(self, i: int) -> int {
        self.member_block_offset() + " {"@.len() + led_by_offset(self.members(), "\n  "@, i)
    }
}

/// The five parts of a declaration stand in its text one behind the other:
/// the line of annotations, the modifiers, the stereotypes, the header and
/// the block of members, and nothing else.
pub proof fn lemma_parts_in_place(v: ClassifierView)
    ensures
        occurs_at(v.annotation_line(), v.rendering(), 0),
        occurs_at(v.modifiers(), v.rendering(), v.modifiers_offset()),
        occurs_at(v.stereotype_list(), v.rendering(), v.stereotype_list_offset()),
        occurs_at(v.header(), v.rendering(), v.keyword_offset()),
        occurs_at(v.member_block(), v.rendering(), v.member_block_offset()),
        v.rendering().len() == v.member_block_offset() + v.member_block().len(),
{
    let a = v.annotation_line();
    let m = v.modifiers();
    let s = v.stereotype_list();
    let h = v.header();
    let b = v.member_block();
    let out = v.rendering();
    let at_m = v.modifiers_offset();
    let at_s = v.stereotype_list_offset();
    let at_h = v.keyword_offset();
    let at_b = v.member_block_offset();
    assert(out.subrange(0, at_m) =~= a);
    assert(out.subrange(at_m, at_s) =~= m);
    assert(out.subrange(at_s, at_h) =~= s);
    assert(out.subrange(at_h, at_b) =~= h);
    assert(out.subrange(at_b, at_b + b.len()) =~= b);
}

/// A piece that stands in one part of a text stands in the text.
proof fn lemma_occurs_in_part(piece: Seq<char>, part: Seq<char>, text: Seq<char>, at: int, part_at: int)
    requires
        occurs_at(piece, part, at),
        occurs_at(part, text, part_at),
    ensures
        occurs_at(piece, text, part_at + at),
{
    assert(text.subrange(part_at + at, part_at + at + piece.len()) =~= text.subrange(
        part_at,
        part_at + part.len(),
    ).subrange(at, at + piece.len()));
}

/// Where a classifier that is no interface is abstract, its declaration
/// says `abstract` first of all that stands on the line of the keyword:
/// `final`, where the classifier is final, follows at once, and the keyword
/// comes behind both.
pub proof fn lemma_abstract_comes_first(v: ClassifierView)
    requires
        v.is_abstract,
        v.kind != crate::kind::ClassifierKind::Interface,
    ensures
        occurs_at("abstract "@, v.rendering(), v.modifiers_offset()),
        v.is_final ==> occurs_at(
            "final "@,
            v.rendering(),
            v.modifiers_offset() + "abstract "@.len(),
        ),
        occurs_at(v.kind.keyword(), v.rendering(), v.keyword_offset()),
        v.modifiers_offset() + "abstract "@.len() + (if v.is_final {
            "final "@.len()
        } else {
            0
        }) <= v.keyword_offset(),
{
    lemma_parts_in_place(v);
    let m = v.modifiers();
    let word = "abstract "@;
    let n = word.len() as int;
    assert(m.subrange(0, n) =~= word);
    lemma_occurs_in_part(word, m, v.rendering(), 0, v.modifiers_offset());
    if v.is_final {
        assert(m.subrange(n, n + "final "@.len()) =~= "final "@);
        lemma_occurs_in_part("final "@, m, v.rendering(), n, v.modifiers_offset());
    }
    let h = v.header();
    assert(h.subrange(0, v.kind.keyword().len() as int) =~= v.kind.keyword());
    lemma_occurs_in_part(v.kind.keyword(), h, v.rendering(), 0, v.keyword_offset());
}

/// The stereotypes stand in the declaration in the order in which the
/// classifier holds them, each in a place of its own: of two stereotypes
/// the earlier one ends before the later one starts.
pub proof fn lemma_stereotypes_in_order(v: ClassifierView, i: int, j: int)
    requires
        0 <= i < j < v.stereotypes.len(),
    ensures
        occurs_at(v.stereotypes[i], v.rendering(), v.stereotype_offset(i)),
        occurs_at(v.stereotypes[j], v.rendering(), v.stereotype_offset(j)),
        v.stereotype_offset(i) + v.stereotypes[i].len() < v.stereotype_offset(j),
{
    lemma_stereotype_in_place(v, i);
    lemma_stereotype_in_place(v, j);
    lemma_joined_ordered(v.stereotypes, ", "@, i, j);
    reveal_strlit(", ");
}

/// Each stereotype stands at its offset.
pub proof fn lemma_stereotype_in_place(v: ClassifierView, i: int)
    requires
        0 <= i < v.stereotypes.len(),
    ensures
        occurs_at(v.stereotypes[i], v.rendering(), v.stereotype_offset(i)),
{
    lemma_parts_in_place(v);
    lemma_joined_places(v.stereotypes, ", "@, i);
    lemma_occurs_within(
        v.stereotypes[i],
        "«"@,
        joined(v.stereotypes, ", "@),
        "» "@,
        joined_offset(v.stereotypes, ", "@, i),
    );
    lemma_occurs_in_part(
        v.stereotypes[i],
        v.stereotype_list(),
        v.rendering(),
        "«"@.len() + joined_offset(v.stereotypes, ", "@, i),
        v.stereotype_list_offset(),
    );
}

/// The texts of the annotations stand on their line in the order of the
/// names, each in a place of its own.
pub proof fn lemma_meta_values_in_order(v: ClassifierView, i: int, j: int)
    requires
        0 <= i < j < v.meta.len(),
    ensures
        occurs_at(v.meta[i].1, v.rendering(), v.meta_value_offset(i)),
        occurs_at(v.meta[j].1, v.rendering(), v.meta_value_offset(j)),
        v.meta_value_offset(i) + v.meta[i].1.len() < v.meta_value_offset(j),
{
    lemma_meta_value_in_place(v, i);
    lemma_meta_value_in_place(v, j);
    lemma_joined_ordered(v.meta_values(), ", "@, i, j);
    reveal_strlit(", ");
}

/// The text of each annotation stands at its offset.
pub proof fn lemma_meta_value_in_place(v: ClassifierView, i: int)
    requires
        0 <= i < v.meta.len(),
    ensures
        occurs_at(v.meta[i].1, v.rendering(), v.meta_value_offset(i)),
{
    lemma_parts_in_place(v);
    let values = v.meta_values();
    lemma_joined_places(values, ", "@, i);
    lemma_occurs_within(
        values[i],
        "#["@,
        joined(values, ", "@),
        "]\n"@,
        joined_offset(values, ", "@, i),
    );
    lemma_occurs_in_part(
        values[i],
        v.annotation_line(),
        v.rendering(),
        "#["@.len() + joined_offset(values, ", "@, i),
        0,
    );
}

/// Each member stands at its offset, on a line of its own behind two
/// spaces.
pub proof fn lemma_member_in_place(v: ClassifierView, i: int)
    requires
        0 <= i < v.members().len(),
    ensures
        occurs_at(v.members()[i], v.rendering(), v.member_offset(i)),
        occurs_at("\n  "@, v.rendering(), v.member_offset(i) - "\n  "@.len()),
{
    lemma_parts_in_place(v);
    let members = v.members();
    let lead = "\n  "@;
    lemma_led_by_split(members, lead, v.attributes.len() as int);
    assert(members.take(v.attributes.len() as int) =~= v.attributes);
    assert(members.skip(v.attributes.len() as int) =~= v.operations);
    assert(v.member_block() =~= " {"@ + led_by(members, lead) + "\n}"@);
    lemma_led_by_places(members, lead, i);
    let at = led_by_offset(members, lead, i);
    lemma_occurs_within(members[i], " {"@, led_by(members, lead), "\n}"@, at);
    lemma_occurs_within(lead, " {"@, led_by(members, lead), "\n}"@, at - lead.len());
    lemma_occurs_in_part(
        members[i],
        v.member_block(),
        v.rendering(),
        " {"@.len() + at,
        v.member_block_offset(),
    );
    lemma_occurs_in_part(
        lead,
        v.member_block(),
        v.rendering(),
        " {"@.len() + at - lead.len(),
        v.member_block_offset(),
    );
}

/// The members stand in the declaration in the order in which the
/// classifier holds them, each in a place of its own: of two members the
/// earlier one ends before the later one starts.
pub proof fn lemma_members_in_order(v: ClassifierView, i: int, j: int)
    requires
        0 <= i < j < v.members().len(),
    ensures
        occurs_at(v.members()[i], v.rendering(), v.member_offset(i)),
        occurs_at(v.members()[j], v.rendering(), v.member_offset(j)),
        v.member_offset(i) + v.members()[i].len() < v.member_offset(j),
{
    lemma_member_in_place(v, i);
    lemma_member_in_place(v, j);
    lemma_led_by_ordered(v.members(), "\n  "@, i, j);
    reveal_strlit("\n  ");
}

/// Every attribute stands before every operation.
pub proof fn lemma_attributes_before_operations(v: ClassifierView, i: int, k: int)
    requires
        0 <= i < v.attributes.len(),
        0 <= k < v.operations.len(),
    ensures
        occurs_at(v.attributes[i], v.rendering(), v.member_offset(i)),
        occurs_at(v.operations[k], v.rendering(), v.member_offset(v.attributes.len() + k)),
        v.member_offset(i) + v.attributes[i].len() < v.member_offset(v.attributes.len() + k),
{
    lemma_members_in_order(v, i, v.attributes.len() + k);
}

} // verus!
