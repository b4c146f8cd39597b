//! Text as sequences of characters: how pieces are put together, and where
//! a piece stands in a text.

use vstd::prelude::*;

verus! {

/// Every item of `items` in order, each one after a copy of `lead`.
pub open spec fn led_by(items: Seq<Seq<char>>, lead: Seq<char>) -> Seq<char>
    decreases items.len(),
{
    if items.len() == 0 {
        Seq::empty()
    } else {
        led_by(items.drop_last(), lead) + lead + items.last()
    }
}

/// The items of `items` in order, with a copy of `sep` between each two
/// neighbours.
pub open spec fn joined(items: Seq<Seq<char>>, sep: Seq<char>) -> Seq<char> {
    if items.len() == 0 {
        Seq::empty()
    } else {
        items[0] + led_by(items.skip(1), sep)
    }
}

/// `piece` stands in `text` at offset `at`.
pub open spec fn occurs_at(piece: Seq<char>, text: Seq<char>, at: int) -> bool {
    &&& 0 <= at
    &&& at + piece.len() <= text.len()
    &&& text.subrange(at, at + piece.len()) == piece
}

/// `piece` stands somewhere in `text`.
pub open spec fn occurs_in(piece: Seq<char>, text: Seq<char>) -> bool {
    exists|at: int| occurs_at(piece, text, at)
}

/// The character `c` is none of the characters of `piece`.
pub open spec fn foreign_to(c: char, piece: Seq<char>) -> bool {
    forall|j: int| 0 <= j < piece.len() ==> piece[j] != c
}

/// `text` is empty or ends with a character that `piece` does not have, and
/// `piece` stands nowhere in it: whatever is written behind `text`, no
/// `piece` will reach back into it.
pub open spec fn closed_to(text: Seq<char>, piece: Seq<char>) -> bool {
    &&& !occurs_in(piece, text)
    &&& text.len() > 0 ==> foreign_to(text.last(), piece)
}

/// `mark` begins and ends with characters that `piece` does not have, and
/// `piece` stands nowhere in it: a `piece` can neither lie in `mark` nor
/// reach across it.
pub open spec fn sealed_to(mark: Seq<char>, piece: Seq<char>) -> bool {
    &&& mark.len() > 0
    &&& foreign_to(mark[0], piece)
    &&& foreign_to(mark.last(), piece)
    &&& !occurs_in(piece, mark)
}

/// `piece` stands in none of `items`.
pub open spec fn none_has(items: Seq<Seq<char>>, piece: Seq<char>) -> bool {
    forall|i: int| 0 <= i < items.len() ==> !occurs_in(piece, #[trigger] items[i])
}

/// A piece that stands in neither of two texts stands in the two put
/// together only if it reaches across the seam, and it cannot do that
/// where one of the two characters at the seam is foreign to it.
pub proof fn lemma_seam(a: Seq<char>, b: Seq<char>, piece: Seq<char>)
    requires
        !occurs_in(piece, a),
        !occurs_in(piece, b),
        a.len() == 0 || b.len() == 0 || foreign_to(a.last(), piece) || foreign_to(b[0], piece),
    ensures
        !occurs_in(piece, a + b),
{
    let n = piece.len() as int;
    assert forall|at: int| !occurs_at(piece, a + b, at) by {
        if occurs_at(piece, a + b, at) {
            let found = (a + b).subrange(at, at + n);
            if at + n <= a.len() {
                assert(a.subrange(at, at + n) =~= found);
                assert(occurs_at(piece, a, at));
            } else if at >= a.len() {
                assert(b.subrange(at - a.len(), at - a.len() + n) =~= found);
                assert(occurs_at(piece, b, at - a.len()));
            } else {
                assert(found[a.len() - 1 - at] == a.last());
                assert(found[a.len() - at] == b[0]);
            }
        }
    }
}

/// A piece that stands in a text stands in whatever the text is part of,
/// as far to the right as the part before the text is long.
pub proof fn lemma_occurs_within(
    piece: Seq<char>,
    before: Seq<char>,
    text: Seq<char>,
    after: Seq<char>,
    at: int,
)
    requires
        occurs_at(piece, text, at),
    ensures
        occurs_at(piece, before + text + after, before.len() + at),
{
    assert((before + text + after).subrange(before.len() + at, before.len() + at + piece.len())
        =~= text.subrange(at, at + piece.len()));
}

/// Where item `i` starts in `led_by(items, lead)`: behind what is written
/// for the items before it, and behind its own copy of `lead`.
pub open spec fn led_by_offset(items: Seq<Seq<char>>, lead: Seq<char>, i: int) -> int {
    (led_by(items.take(i), lead).len() + lead.len()) as int
}

/// Where item `i` starts in `joined(items, sep)`: behind the items before
/// it as they are joined, and behind one more `sep` unless it is the first.
pub open spec fn joined_offset(items: Seq<Seq<char>>, sep: Seq<char>, i: int) -> int {
    if i > 0 {
        (joined(items.take(i), sep).len() + sep.len()) as int
    } else {
        0
    }
}

/// What is written for all items is what is written for the first `k` and
/// then what is written for the others.
pub proof fn lemma_led_by_split(items: Seq<Seq<char>>, lead: Seq<char>, k: int)
    requires
        0 <= k <= items.len(),
    ensures
        led_by(items, lead) == led_by(items.take(k), lead) + led_by(items.skip(k), lead),
    decreases items.len(),
{
    if k == items.len() {
        assert(items.take(k) =~= items);
        assert(items.skip(k) =~= Seq::<Seq<char>>::empty());
        assert(led_by(items, lead) =~= led_by(items, lead) + led_by(items.skip(k), lead));
    } else {
        let rest = items.drop_last();
        lemma_led_by_split(rest, lead, k);
        assert(rest.take(k) =~= items.take(k));
        assert(items.skip(k).drop_last() =~= rest.skip(k));
        assert(items.skip(k).last() == items.last());
        assert(led_by(items, lead) =~= led_by(items.take(k), lead) + led_by(
            items.skip(k),
            lead,
        ));
    }
}

/// In `led_by(items, lead)` item `i` stands at its offset with a copy of
/// `lead` right before it, and the next item's offset, or the end of the
/// text, is where the order of the items puts it.
pub proof fn lemma_led_by_places(items: Seq<Seq<char>>, lead: Seq<char>, i: int)
    requires
        0 <= i < items.len(),
    ensures
        occurs_at(items[i], led_by(items, lead), led_by_offset(items, lead, i)),
        occurs_at(lead, led_by(items, lead), led_by_offset(items, lead, i) - lead.len()),
        led_by_offset(items, lead, i + 1) == led_by_offset(items, lead, i) + items[i].len()
            + lead.len(),
        i + 1 == items.len() ==> led_by(items, lead).len() == led_by_offset(items, lead, i)
            + items[i].len(),
{
    let before = led_by(items.take(i), lead);
    let upto = items.take(i + 1);
    let behind = led_by(items.skip(i + 1), lead);
    lemma_led_by_split(items, lead, i + 1);
    assert(upto.drop_last() =~= items.take(i));
    assert(upto.last() == items[i]);
    assert(led_by(upto, lead) == before + lead + items[i]);
    let whole = led_by(items, lead);
    assert(whole =~= before + lead + items[i] + behind);
    let at = led_by_offset(items, lead, i);
    assert(whole.subrange(at, at + items[i].len()) =~= items[i]);
    assert(whole.subrange(at - lead.len(), at) =~= lead);
    if i + 1 == items.len() {
        assert(items.skip(i + 1) =~= Seq::<Seq<char>>::empty());
    }
}

/// The offsets in `led_by(items, lead)` follow the order of the items: a
/// later item starts behind the end of an earlier one and its own `lead`.
pub proof fn lemma_led_by_ordered(items: Seq<Seq<char>>, lead: Seq<char>, i: int, j: int)
    requires
        0 <= i < j < items.len(),
    ensures
        led_by_offset(items, lead, i) + items[i].len() + lead.len() <= led_by_offset(
            items,
            lead,
            j,
        ),
    decreases j - i,
{
    lemma_led_by_places(items, lead, i);
    if i + 1 < j {
        lemma_led_by_ordered(items, lead, i + 1, j);
    }
}

/// The items joined are the first item and then the others, each led by
/// the separator; so the offsets of the two ways of writing agree.
pub proof fn lemma_joined_offset(items: Seq<Seq<char>>, sep: Seq<char>, i: int)
    requires
        0 <= i < items.len(),
    ensures
        joined_offset(items, sep, i) == if i == 0 {
            0
        } else {
            items[0].len() + led_by_offset(items.skip(1), sep, i - 1)
        },
{
    if i > 0 {
        assert(items.take(i).skip(1) =~= items.skip(1).take(i - 1));
        assert(items.take(i)[0] == items[0]);
    } else {
        assert(items.take(0) =~= Seq::<Seq<char>>::empty());
    }
}

/// In `joined(items, sep)` item `i` stands at its offset, and the next
/// item's offset, or the end of the text, is where the order of the items
/// puts it.
pub proof fn lemma_joined_places(items: Seq<Seq<char>>, sep: Seq<char>, i: int)
    requires
        0 <= i < items.len(),
    ensures
        occurs_at(items[i], joined(items, sep), joined_offset(items, sep, i)),
        i + 1 < items.len() ==> joined_offset(items, sep, i + 1) == joined_offset(items, sep, i)
            + items[i].len() + sep.len(),
        i + 1 == items.len() ==> joined(items, sep).len() == joined_offset(items, sep, i)
            + items[i].len(),
{
    let others = items.skip(1);
    let whole = joined(items, sep);
    lemma_joined_offset(items, sep, i);
    if i + 1 < items.len() {
        lemma_joined_offset(items, sep, i + 1);
    }
    if i == 0 {
        assert(whole.subrange(0, items[0].len() as int) =~= items[0]);
        if items.len() == 1 {
            assert(others =~= Seq::<Seq<char>>::empty());
        } else {
            assert(others.take(0) =~= Seq::<Seq<char>>::empty());
        }
    } else {
        lemma_led_by_places(others, sep, i - 1);
        lemma_occurs_within(
            items[i],
            items[0],
            led_by(others, sep),
            Seq::empty(),
            led_by_offset(others, sep, i - 1),
        );
        assert(items[0] + led_by(others, sep) + Seq::<char>::empty() =~= whole);
    }
}

/// The offsets in `joined(items, sep)` follow the order of the items: a
/// later item starts behind the end of an earlier one and a separator.
pub proof fn lemma_joined_ordered(items: Seq<Seq<char>>, sep: Seq<char>, i: int, j: int)
    requires
        0 <= i < j < items.len(),
    ensures
        joined_offset(items, sep, i) + items[i].len() + sep.len() <= joined_offset(items, sep, j),
    decreases j - i,
{
    lemma_joined_places(items, sep, i);
    if i + 1 < j {
        lemma_joined_ordered(items, sep, i + 1, j);
    }
}

/// Written behind a text in which `piece` does not stand, items in none of
/// which it stands, each led by a mark sealed to it, give a text in which
/// it does not stand.
pub proof fn lemma_led_by_avoids(
    base: Seq<char>,
    items: Seq<Seq<char>>,
    lead: Seq<char>,
    piece: Seq<char>,
)
    requires
        !occurs_in(piece, base),
        none_has(items, piece),
        items.len() > 0 ==> sealed_to(lead, piece),
    ensures
        !occurs_in(piece, base + led_by(items, lead)),
    decreases items.len(),
{
    if items.len() == 0 {
        assert(base + led_by(items, lead) =~= base);
    } else {
        let rest = items.drop_last();
        assert forall|i: int| 0 <= i < rest.len() implies !occurs_in(piece, #[trigger] rest[i]) by {
            assert(rest[i] == items[i]);
        }
        lemma_led_by_avoids(base, rest, lead, piece);
        let so_far = base + led_by(rest, lead);
        lemma_seam(so_far, lead, piece);
        assert((so_far + lead).last() == lead.last());
        lemma_seam(so_far + lead, items.last(), piece);
        assert(base + led_by(items, lead) =~= so_far + lead + items.last());
    }
}

/// Written behind a text closed to `piece`, items in none of which it
/// stands, joined by a mark sealed to it, give a text in which it does not
/// stand.
pub proof fn lemma_joined_avoids(
    base: Seq<char>,
    items: Seq<Seq<char>>,
    sep: Seq<char>,
    piece: Seq<char>,
)
    requires
        closed_to(base, piece),
        none_has(items, piece),
        items.len() > 1 ==> sealed_to(sep, piece),
    ensures
        !occurs_in(piece, base + joined(items, sep)),
{
    if items.len() == 0 {
        assert(base + joined(items, sep) =~= base);
    } else {
        let others = items.skip(1);
        assert forall|i: int| 0 <= i < others.len() implies !occurs_in(
            piece,
            #[trigger] others[i],
        ) by {
            assert(others[i] == items[i + 1]);
        }
        lemma_seam(base, items[0], piece);
        lemma_led_by_avoids(base + items[0], others, sep, piece);
        assert(base + joined(items, sep) =~= base + items[0] + led_by(others, sep));
    }
}

} // verus!
