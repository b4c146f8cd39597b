//! What does not stand in a declaration.

use vstd::prelude::*;
use crate::classifier::ClassifierView;
use crate::kind::ClassifierKind;
use crate::text::{
    closed_to, foreign_to, joined, led_by, lemma_joined_avoids, lemma_led_by_avoids, lemma_seam,
    none_has, occurs_at, occurs_in, sealed_to,
};

verus! {

/// A mark that shares no character with a piece is sealed to it.
pub proof fn lemma_apart_is_sealed(mark: Seq<char>, piece: Seq<char>)
    requires
        mark.len() > 0,
        piece.len() > 0,
        forall|i: int| 0 <= i < mark.len() ==> foreign_to(#[trigger] mark[i], piece),
    ensures
        sealed_to(mark, piece),
{
    assert forall|at: int| !occurs_at(piece, mark, at) by {
        if occurs_at(piece, mark, at) {
            assert(mark.subrange(at, at + piece.len())[0] == piece[0]);
            assert(foreign_to(mark[at], piece));
        }
    }
}

/// A mark shorter than a piece, with a first and a last character that
/// the piece does not have, is sealed to it.
pub proof fn lemma_short_is_sealed(mark: Seq<char>, piece: Seq<char>)
    requires
        0 < mark.len() < piece.len(),
        foreign_to(mark[0], piece),
        foreign_to(mark.last(), piece),
    ensures
        sealed_to(mark, piece),
{
}

/// A piece stands nowhere in a text that has the piece's first character
/// at none of the offsets at which the piece could start.
pub proof fn lemma_no_start(text: Seq<char>, piece: Seq<char>)
    requires
        piece.len() > 0,
        forall|at: int| 0 <= at <= text.len() - piece.len() ==> text[at] != piece[0],
    ensures
        !occurs_in(piece, text),
{
    assert forall|at: int| !occurs_at(piece, text, at) by {
        if occurs_at(piece, text, at) {
            assert(text.subrange(at, at + piece.len())[0] == piece[0]);
        }
    }
}

impl ClassifierView {
    /// `piece` stands in none of the texts that the classifier was given:
    /// the texts of its annotations, its stereotypes, its names and its
    /// members.
    pub open spec fn texts_avoid(self, piece: Seq<char>) -> bool {
        &&& none_has(self.meta_values(), piece)
        &&& none_has(self.stereotypes, piece)
        &&& !occurs_in(piece, self.name)
        &&& match self.id {
            Some(id) => !occurs_in(piece, id),
            None => true,
        }
        &&& none_has(self.attributes, piece)
        &&& none_has(self.operations, piece)
    }

    /// `piece` stands in neither of the classifier's names.
    pub open spec fn names_avoid(self, piece: Seq<char>) -> bool {
        &&& !occurs_in(piece, self.name)
        &&& match self.id {
            Some(id) => !occurs_in(piece, id),
            None => true,
        }
    }

    /// `piece` neither stands in nor reaches across any of the marks that
    /// the declaration of this classifier is written with, and does not
    /// stand in the keyword.
    pub open spec fn marks_avoid(self, piece: Seq<char>) -> bool {
        &&& self.meta.len() > 0 ==> sealed_to("#["@, piece) && sealed_to("]\n"@, piece)
        &&& self.meta.len() > 1 || self.stereotypes.len() > 1 ==> sealed_to(", "@, piece)
        &&& self.shows_abstract() ==> sealed_to("abstract "@, piece)
        &&& self.is_final ==> sealed_to("final "@, piece)
        &&& self.stereotypes.len() > 0 ==> sealed_to("«"@, piece) && sealed_to("» "@, piece)
        &&& !occurs_in(piece, self.kind.keyword())
        &&& sealed_to(" "@, piece)
        &&& self.id is Some ==> sealed_to(" as "@, piece)
        &&& self.members().len() > 0 ==> sealed_to(" {"@, piece) && sealed_to("\n  "@, piece)
            && sealed_to("\n}"@, piece)
    }
}

/// Behind a text closed to `piece`, the line of annotations leaves the
/// text closed to it.
proof fn lemma_annotation_line_avoids(v: ClassifierView, piece: Seq<char>, base: Seq<char>)
    requires
        closed_to(base, piece),
        v.texts_avoid(piece),
        v.marks_avoid(piece),
    ensures
        closed_to(base + v.annotation_line(), piece),
{
    if v.meta.len() == 0 {
        assert(base + v.annotation_line() =~= base);
    } else {
        let open = base + "#["@;
        lemma_seam(base, "#["@, piece);
        assert(open.last() == "#["@.last());
        lemma_joined_avoids(open, v.meta_values(), ", "@, piece);
        let list = open + joined(v.meta_values(), ", "@);
        lemma_seam(list, "]\n"@, piece);
        assert((list + "]\n"@).last() == "]\n"@.last());
        assert(base + v.annotation_line() =~= list + "]\n"@);
    }
}

/// Behind a text closed to `piece`, the modifiers leave the text closed
/// to it.
proof fn lemma_modifiers_avoid(v: ClassifierView, piece: Seq<char>, base: Seq<char>)
    requires
        closed_to(base, piece),
        v.marks_avoid(piece),
    ensures
        closed_to(base + v.modifiers(), piece),
{
    let first: Seq<char> = if v.shows_abstract() {
        "abstract "@
    } else {
        Seq::empty()
    };
    let second: Seq<char> = if v.is_final {
        "final "@
    } else {
        Seq::empty()
    };
    if v.shows_abstract() {
        lemma_seam(base, first, piece);
        assert((base + first).last() == first.last());
    } else {
        assert(base + first =~= base);
    }
    if v.is_final {
        lemma_seam(base + first, second, piece);
        assert((base + first + second).last() == second.last());
    } else {
        assert(base + first + second =~= base + first);
    }
    assert(base + v.modifiers() =~= base + first + second);
}

/// Behind a text closed to `piece`, the list of stereotypes leaves the
/// text closed to it.
proof fn lemma_stereotype_list_avoids(v: ClassifierView, piece: Seq<char>, base: Seq<char>)
    requires
        closed_to(base, piece),
        v.texts_avoid(piece),
        v.marks_avoid(piece),
    ensures
        closed_to(base + v.stereotype_list(), piece),
{
    if v.stereotypes.len() == 0 {
        assert(base + v.stereotype_list() =~= base);
    } else {
        let open = base + "«"@;
        lemma_seam(base, "«"@, piece);
        assert(open.last() == "«"@.last());
        lemma_joined_avoids(open, v.stereotypes, ", "@, piece);
        let list = open + joined(v.stereotypes, ", "@);
        lemma_seam(list, "» "@, piece);
        assert((list + "» "@).last() == "» "@.last());
        assert(base + v.stereotype_list() =~= list + "» "@);
    }
}

/// Behind a text closed to `piece`, the header gives a text in which
/// `piece` does not stand.
proof fn lemma_header_avoids(v: ClassifierView, piece: Seq<char>, base: Seq<char>)
    requires
        closed_to(base, piece),
        v.texts_avoid(piece),
        v.marks_avoid(piece),
    ensures
        !occurs_in(piece, base + v.header()),
{
    let word = base + v.kind.keyword();
    lemma_seam(base, v.kind.keyword(), piece);
    let spaced = word + " "@;
    lemma_seam(word, " "@, piece);
    assert(spaced.last() == " "@.last());
    let named = spaced + v.name;
    lemma_seam(spaced, v.name, piece);
    match v.id {
        Some(id) => {
            let marked = named + " as "@;
            lemma_seam(named, " as "@, piece);
            assert(marked.last() == " as "@.last());
            lemma_seam(marked, id, piece);
            assert(base + v.header() =~= marked + id);
        },
        None => {
            assert(base + v.header() =~= named);
        },
    }
}

/// Behind a text in which `piece` does not stand, the block of members
/// gives a text in which it does not stand.
proof fn lemma_member_block_avoids(v: ClassifierView, piece: Seq<char>, base: Seq<char>)
    requires
        !occurs_in(piece, base),
        v.texts_avoid(piece),
        v.marks_avoid(piece),
    ensures
        !occurs_in(piece, base + v.member_block()),
{
    if v.members().len() == 0 {
        assert(base + v.member_block() =~= base);
    } else {
        let lead = "\n  "@;
        let open = base + " {"@;
        lemma_seam(base, " {"@, piece);
        lemma_led_by_avoids(open, v.attributes, lead, piece);
        let first = open + led_by(v.attributes, lead);
        lemma_led_by_avoids(first, v.operations, lead, piece);
        let both = first + led_by(v.operations, lead);
        lemma_seam(both, "\n}"@, piece);
        assert(base + v.member_block() =~= both + "\n}"@);
    }
}

/// A piece of text does not stand in a declaration where it stands in
/// none of the texts that the classifier was given, and neither stands in
/// nor reaches across the marks that the declaration is written with.
pub proof fn lemma_declaration_avoids(v: ClassifierView, piece: Seq<char>)
    requires
        v.texts_avoid(piece),
        v.marks_avoid(piece),
    ensures
        !occurs_in(piece, v.rendering()),
{
    let nothing = Seq::<char>::empty();
    assert(!occurs_in(piece, nothing)) by {
        if piece.len() == 0 {
            assert(" "@.subrange(0, 0) =~= piece);
            assert(occurs_at(piece, " "@, 0));
        }
    }
    lemma_annotation_line_avoids(v, piece, nothing);
    let a = nothing + v.annotation_line();
    lemma_modifiers_avoid(v, piece, a);
    let m = a + v.modifiers();
    lemma_stereotype_list_avoids(v, piece, m);
    let s = m + v.stereotype_list();
    lemma_header_avoids(v, piece, s);
    let h = s + v.header();
    lemma_member_block_avoids(v, piece, h);
    assert(v.rendering() =~= h + v.member_block());
}

/// None of the keywords, and none of the marks of the line that the
/// keyword stands on, shares a character with the marks that open the
/// annotations, the stereotypes and the members.
proof fn lemma_line_marks_apart(v: ClassifierView, piece: Seq<char>)
    requires
        piece == "#["@ || piece == "«"@ || piece == "{"@,
    ensures
        sealed_to("abstract "@, piece),
        sealed_to("final "@, piece),
        sealed_to(v.kind.keyword(), piece),
        sealed_to(" "@, piece),
        sealed_to(" as "@, piece),
{
    reveal_strlit("#[");
    reveal_strlit("«");
    reveal_strlit("{");
    reveal_strlit("abstract ");
    reveal_strlit("final ");
    reveal_strlit(" ");
    reveal_strlit(" as ");
    reveal_strlit("class");
    reveal_strlit("dataType");
    reveal_strlit("enumeration");
    reveal_strlit("interface");
    reveal_strlit("primitive");
    lemma_apart_is_sealed("abstract "@, piece);
    lemma_apart_is_sealed("final "@, piece);
    lemma_apart_is_sealed(v.kind.keyword(), piece);
    lemma_apart_is_sealed(" "@, piece);
    lemma_apart_is_sealed(" as "@, piece);
}

/// The declaration of a classifier without annotations, stereotypes and
/// members has none of the marks that open them: no `#[`, no `«` and no
/// `{`, unless one of the classifier's names brings it.
pub proof fn lemma_bare_declaration(v: ClassifierView, piece: Seq<char>)
    requires
        v.meta.len() == 0,
        v.stereotypes.len() == 0,
        v.attributes.len() == 0,
        v.operations.len() == 0,
        piece == "#["@ || piece == "«"@ || piece == "{"@,
        v.names_avoid(piece),
    ensures
        !occurs_in(piece, v.rendering()),
{
    lemma_line_marks_apart(v, piece);
    lemma_declaration_avoids(v, piece);
}

/// The word `abstract` neither stands in nor reaches across any mark but
/// the modifier that says it, and stands in no keyword.
proof fn lemma_marks_avoid_abstract(v: ClassifierView)
    requires
        !v.shows_abstract(),
    ensures
        v.marks_avoid("abstract"@),
{
    let piece = "abstract"@;
    reveal_strlit("abstract");
    reveal_strlit("#[");
    reveal_strlit("]\n");
    reveal_strlit(", ");
    reveal_strlit("final ");
    reveal_strlit("«");
    reveal_strlit("» ");
    reveal_strlit(" ");
    reveal_strlit(" as ");
    reveal_strlit(" {");
    reveal_strlit("\n  ");
    reveal_strlit("\n}");
    reveal_strlit("class");
    reveal_strlit("dataType");
    reveal_strlit("enumeration");
    reveal_strlit("interface");
    reveal_strlit("primitive");
    lemma_short_is_sealed("#["@, piece);
    lemma_short_is_sealed("]\n"@, piece);
    lemma_short_is_sealed(", "@, piece);
    lemma_short_is_sealed("final "@, piece);
    lemma_short_is_sealed("«"@, piece);
    lemma_short_is_sealed("» "@, piece);
    lemma_short_is_sealed(" "@, piece);
    lemma_short_is_sealed(" as "@, piece);
    lemma_short_is_sealed(" {"@, piece);
    lemma_short_is_sealed("\n  "@, piece);
    lemma_short_is_sealed("\n}"@, piece);
    lemma_no_start(v.kind.keyword(), piece);
}

/// The word `abstract` stands in a declaration if and only if the
/// classifier is abstract and no interface, unless one of the texts that
/// the classifier was given brings the word.
pub proof fn lemma_abstract_only_where_shown(v: ClassifierView)
    requires
        v.texts_avoid("abstract"@),
    ensures
        occurs_in("abstract"@, v.rendering()) <==> v.shows_abstract(),
{
    if v.shows_abstract() {
        crate::layout::lemma_abstract_comes_first(v);
        let at = v.modifiers_offset();
        let out = v.rendering();
        reveal_strlit("abstract");
        reveal_strlit("abstract ");
        assert(out.subrange(at, at + 8) =~= out.subrange(at, at + 9).subrange(0, 8));
        assert("abstract "@.subrange(0, 8) =~= "abstract"@);
        assert(occurs_at("abstract"@, out, at));
    } else {
        lemma_marks_avoid_abstract(v);
        lemma_declaration_avoids(v, "abstract"@);
    }
}

/// The declaration of an interface never says `abstract`, whether or not
/// the interface is marked abstract, unless one of the texts that the
/// classifier was given brings the word.
pub proof fn lemma_interface_never_abstract(v: ClassifierView)
    requires
        v.kind == ClassifierKind::Interface,
        v.texts_avoid("abstract"@),
    ensures
        !occurs_in("abstract"@, v.rendering()),
{
    lemma_abstract_only_where_shown(v);
}

} // verus!
