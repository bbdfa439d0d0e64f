//! From the frequencies of relationship tags to how often each ship and each pair of
//! characters was counted.
//!
//! The tags are read first: `retained_ships` keeps the ships of one kind that they name,
//! each with the count of its tag. `merge_counts` and `matrix_of` then work on ships,
//! wherever they come from. Counts are 64-bit numbers, and every sum of counts stops at
//! the largest of them.
use vstd::prelude::*;
use crate::search::ShipKind;
use crate::ship::{pair, parse_ship, Ship, ShipView};
use crate::ship::{clean, lemma_pair_symmetric};
use crate::text::{
    chars_le, chars_of, lemma_lex_le_antisymmetric, lemma_lex_le_total, lemma_lex_le_transitive,
    lex_le, lex_lt, same_chars, same_text, split, text_le,
};

verus! {

/// A ship and how often it was counted.
#[derive(Debug, PartialEq, Eq, PartialOrd, Ord, Clone, Hash)]
pub struct ShipCount {
    pub ship: Ship,
    pub count: u64,
}

/// A ship's count, with the names as sequences of characters.
pub ghost struct ShipCountView {
    pub ship: ShipView,
    pub count: u64,
}

impl View for ShipCount {
    type V = ShipCountView;

    open spec fn view(&self) -> ShipCountView {
        ShipCountView { ship: self.ship@, count: self.count }
    }
}

impl DeepView for ShipCount {
    type V = ShipCountView;

    open spec fn deep_view(&self) -> ShipCountView {
        self@
    }
}

/// The ship that a tag stands for in a report on ships of `kind`: none where the tag
/// names no ship, or one of the other kind.
pub open spec fn retained(tag: Seq<char>, kind: ShipKind) -> Option<ShipView> {
    match parse_ship(tag) {
        Ok(ship) => if ship.kind == kind {
            Some(ship)
        } else {
            None
        },
        Err(_) => None,
    }
}

/// A sum of counts as a count: the sum itself, as long as it fits.
pub open spec fn capped(n: nat) -> u64 {
    if n > u64::MAX {
        u64::MAX
    } else {
        n as u64
    }
}

/// The ships of `kind` that the tags of `pairs` name, in the order of the tags, each with
/// the count of its tag. A tag that names no ship, or one of the other kind, leaves
/// nothing.
pub open spec fn kept(pairs: Seq<(Seq<char>, u64)>, kind: ShipKind) -> Seq<ShipCountView>
    decreases pairs.len(),
{
    if pairs.len() == 0 {
        Seq::empty()
    } else {
        match retained(pairs.last().0, kind) {
            Some(ship) => kept(pairs.drop_last(), kind).push(
                ShipCountView { ship, count: pairs.last().1 },
            ),
            None => kept(pairs.drop_last(), kind),
        }
    }
}

/// How often `ship` was counted: the sum of the counts that stand with it.
pub open spec fn tally(entries: Seq<ShipCountView>, ship: ShipView) -> nat
    decreases entries.len(),
{
    if entries.len() == 0 {
        0
    } else {
        tally(entries.drop_last(), ship) + if entries.last().ship == ship {
            entries.last().count as nat
        } else {
            0
        }
    }
}

/// Whether `ship` is among the ships of `entries`.
pub open spec fn occurs(entries: Seq<ShipCountView>, ship: ShipView) -> bool {
    exists|i: int| 0 <= i < entries.len() && (#[trigger] entries[i]).ship == ship
}

/// Whether ship `a` comes before ship `b`: by the first name, then by the second, and a
/// romantic ship before the platonic ship of the same two.
pub open spec fn ship_before(a: ShipView, b: ShipView) -> bool {
    if a.first != b.first {
        lex_le(a.first, b.first)
    } else if a.second != b.second {
        lex_le(a.second, b.second)
    } else {
        a.kind == ShipKind::Romantic && b.kind == ShipKind::Platonic
    }
}

/// Whether the ships of a list stand in their order, each of them once.
pub open spec fn ships_ascend(counts: Seq<ShipCountView>) -> bool {
    forall|i: int, j: int|
        0 <= i < j < counts.len() ==> ship_before((#[trigger] counts[i]).ship, (#[trigger] counts[j]).ship)
}

/// Whether `counts` is the report on `entries`: each of their ships once, in the order
/// of the ships, with the sum of the counts that stand with it.
pub open spec fn is_report(counts: Seq<ShipCountView>, entries: Seq<ShipCountView>) -> bool {
    &&& ships_ascend(counts)
    &&& forall|i: int|
        0 <= i < counts.len() ==> occurs(entries, (#[trigger] counts[i]).ship) && counts[i].count
            == capped(tally(entries, counts[i].ship))
    &&& forall|ship: ShipView| occurs(entries, ship) ==> occurs(counts, ship)
}

/// A ship that is not among the entries was never counted.
pub proof fn lemma_tally_absent(entries: Seq<ShipCountView>, ship: ShipView)
    requires
        !occurs(entries, ship),
    ensures
        tally(entries, ship) == 0,
    decreases entries.len(),
{
    if entries.len() > 0 {
        let rest = entries.drop_last();
        assert(entries[entries.len() - 1] == entries.last());
        assert forall|i: int| 0 <= i < rest.len() implies (#[trigger] rest[i]).ship != ship by {
            assert(rest[i] == entries[i]);
        }
        lemma_tally_absent(rest, ship);
    }
}

/// The ship that a tag names has its names in order.
pub proof fn lemma_parsed_wf(tag: Seq<char>)
    ensures
        parse_ship(tag) matches Ok(ship) ==> ship.wf(),
{
    if parse_ship(tag) is Ok {
        let pieces = if tag.contains('/') {
            split(tag, '/')
        } else {
            split(tag, '&')
        };
        lemma_pair_symmetric(clean(pieces[0]), clean(pieces[1]), ShipKind::Romantic);
        lemma_pair_symmetric(clean(pieces[0]), clean(pieces[1]), ShipKind::Platonic);
    }
}

/// The ships stand in a line: no ship comes before itself, of two ships one comes before
/// the other and not the other way round, and what comes before what comes before a ship
/// comes before that ship.
pub proof fn lemma_ship_before_order(a: ShipView, b: ShipView, c: ShipView)
    ensures
        !ship_before(a, a),
        ship_before(a, b) && ship_before(b, c) ==> ship_before(a, c),
        ship_before(a, b) ==> !ship_before(b, a),
        ship_before(a, b) || ship_before(b, a) || a == b,
{
    lemma_lex_le_total(a.first, b.first);
    lemma_lex_le_total(a.second, b.second);
    if lex_le(a.first, b.first) && lex_le(b.first, a.first) {
        lemma_lex_le_antisymmetric(a.first, b.first);
    }
    if lex_le(a.second, b.second) && lex_le(b.second, a.second) {
        lemma_lex_le_antisymmetric(a.second, b.second);
    }
    if ship_before(a, b) && ship_before(b, c) {
        if lex_le(a.first, b.first) && lex_le(b.first, c.first) {
            lemma_lex_le_transitive(a.first, b.first, c.first);
        }
        if lex_le(a.second, b.second) && lex_le(b.second, c.second) {
            lemma_lex_le_transitive(a.second, b.second, c.second);
        }
        if lex_le(c.first, a.first) && lex_le(a.first, b.first) {
            lemma_lex_le_transitive(c.first, a.first, b.first);
        }
        if lex_le(b.first, c.first) && lex_le(c.first, a.first) {
            lemma_lex_le_transitive(b.first, c.first, a.first);
        }
        if lex_le(c.first, a.first) && lex_le(b.first, c.first) && lex_le(a.first, b.first) {
            lemma_lex_le_antisymmetric(a.first, c.first) ;
        }
        if a.first == c.first && lex_le(a.first, b.first) && lex_le(b.first, c.first) {
            lemma_lex_le_antisymmetric(a.first, b.first);
        }
        if lex_le(c.second, a.second) && lex_le(a.second, b.second) {
            lemma_lex_le_transitive(c.second, a.second, b.second);
        }
        if lex_le(c.second, b.second) && lex_le(b.second, c.second) {
            lemma_lex_le_antisymmetric(b.second, c.second);
        }
    }
}

/// Whether ship `a` comes before ship `b`.
fn comes_before(a: &Ship, b: &Ship) -> (r: bool)
    ensures
        r == ship_before(a@, b@),
{
    let a1 = chars_of(a.first.as_str());
    let b1 = chars_of(b.first.as_str());
    if !same_chars(&a1, &b1) {
        return chars_le(&a1, &b1);
    }
    let a2 = chars_of(a.second.as_str());
    let b2 = chars_of(b.second.as_str());
    if !same_chars(&a2, &b2) {
        return chars_le(&a2, &b2);
    }
    match (a.kind, b.kind) {
        (ShipKind::Romantic, ShipKind::Platonic) => true,
        _ => false,
    }
}

/// Where `ship` stands in an ordered list, or would stand: the first position whose ship
/// does not come before it.
fn place_of(counts: &Vec<ShipCount>, ship: &Ship) -> (r: usize)
    requires
        ships_ascend(counts.deep_view()),
    ensures
        r <= counts.len(),
        forall|j: int| 0 <= j < r ==> ship_before((#[trigger] counts.deep_view()[j]).ship, ship@),
        forall|j: int|
            r <= j < counts.len() ==> !ship_before((#[trigger] counts.deep_view()[j]).ship, ship@),
{
    let mut k: usize = 0;
    while k < counts.len() && comes_before(&counts[k].ship, ship)
        invariant
            k <= counts.len(),
            ships_ascend(counts.deep_view()),
            forall|j: int| 0 <= j < k ==> ship_before((#[trigger] counts.deep_view()[j]).ship, ship@),
        decreases counts.len() - k,
    {
        k += 1;
    }
    proof {
        let view = counts.deep_view();
        assert forall|j: int| k <= j < counts.len() implies !ship_before(
            (#[trigger] view[j]).ship,
            ship@,
        ) by {
            if j > k {
                lemma_ship_before_order(view[k as int].ship, view[j].ship, ship@);
            }
        }
    }
    k
}

/// Counts `ship` another `count` times in an ordered list.
fn count_ship(counts: &mut Vec<ShipCount>, ship: Ship, count: u64)
    requires
        ships_ascend(old(counts).deep_view()),
    ensures
        ships_ascend(final(counts).deep_view()),
        occurs(final(counts).deep_view(), ship@),
        forall|other: ShipView|
            occurs(final(counts).deep_view(), other) <==> other == ship@ || occurs(
                old(counts).deep_view(),
                other,
            ),
        forall|i: int|
            0 <= i < final(counts).len() ==> (#[trigger] final(counts).deep_view()[i]).count
                == entry_count(
                old(counts).deep_view(),
                final(counts).deep_view()[i].ship,
                ship@,
                count,
            ),
{
    let k = place_of(counts, &ship);
    let ghost before = counts.deep_view();
    if k < counts.len() && !comes_before(&ship, &counts[k].ship) {
        proof {
            lemma_ship_before_order(before[k as int].ship, ship@, ship@);
        }
        let sum = counts[k].count.saturating_add(count);
        counts[k].count = sum;
        proof {
            let after = counts.deep_view();
            assert(after.len() == before.len());
            assert forall|i: int| 0 <= i < after.len() implies (#[trigger] after[i]).ship
                == before[i].ship by {}
            assert(after[k as int].ship == ship@);
            assert forall|other: ShipView| occurs(after, other) <==> other == ship@ || occurs(
                before,
                other,
            ) by {
                if occurs(after, other) {
                    let i = choose|i: int| 0 <= i < after.len() && (#[trigger] after[i]).ship == other;
                    assert(before[i].ship == other);
                }
                if occurs(before, other) {
                    let i = choose|i: int|
                        0 <= i < before.len() && (#[trigger] before[i]).ship == other;
                    assert(after[i].ship == other);
                }
            }
            assert forall|i: int| 0 <= i < after.len() implies (#[trigger] after[i]).count
                == entry_count(before, after[i].ship, ship@, count) by {
                lemma_listed_count(before, i);
                if i != k {
                    assert(before[i].ship != before[k as int].ship) by {
                        if i < k {
                            lemma_ship_before_order(before[i].ship, before[k as int].ship, ship@);
                        } else {
                            lemma_ship_before_order(before[k as int].ship, before[i].ship, ship@);
                        }
                    }
                }
            }
        }
    } else {
        proof {
            assert forall|i: int| 0 <= i < before.len() implies (#[trigger] before[i]).ship
                != ship@ by {
                lemma_ship_before_order(before[i].ship, ship@, ship@);
                if i >= k {
                    lemma_ship_before_order(ship@, before[k as int].ship, before[i].ship);
                    lemma_ship_before_order(ship@, before[i].ship, ship@);
                }
            }
        }
        let ghost entry = ShipCountView { ship: ship@, count };
        counts.insert(k, ShipCount { ship, count });
        proof {
            let after = counts.deep_view();
            assert(after =~= before.insert(k as int, entry));
            assert forall|i: int, j: int| 0 <= i < j < after.len() implies ship_before(
                (#[trigger] after[i]).ship,
                (#[trigger] after[j]).ship,
            ) by {
                if i < k && j > k {
                    assert(after[i] == before[i] && after[j] == before[j - 1]);
                } else if i < k && j < k {
                    assert(after[i] == before[i] && after[j] == before[j]);
                } else if i > k {
                    assert(after[i] == before[i - 1] && after[j] == before[j - 1]);
                } else if i == k {
                    assert(after[j] == before[j - 1]);
                    lemma_ship_before_order(ship@, before[j - 1].ship, ship@);
                    lemma_ship_before_order(ship@, before[k as int].ship, before[j - 1].ship);
                } else {
                    assert(after[i] == before[i]);
                }
            }
            assert(after[k as int].ship == ship@);
            assert forall|other: ShipView| occurs(after, other) <==> other == ship@ || occurs(
                before,
                other,
            ) by {
                if occurs(after, other) && other != ship@ {
                    let i = choose|i: int| 0 <= i < after.len() && (#[trigger] after[i]).ship == other;
                    if i < k {
                        assert(before[i].ship == other);
                    } else {
                        assert(before[i - 1].ship == other);
                    }
                }
                if occurs(before, other) {
                    let i = choose|i: int|
                        0 <= i < before.len() && (#[trigger] before[i]).ship == other;
                    if i < k {
                        assert(after[i].ship == other);
                    } else {
                        assert(after[i + 1].ship == other);
                    }
                }
            }
            assert forall|i: int| 0 <= i < after.len() implies (#[trigger] after[i]).count
                == entry_count(before, after[i].ship, ship@, count) by {
                if i < k {
                    assert(after[i] == before[i]);
                    lemma_listed_count(before, i);
                } else if i > k {
                    assert(after[i] == before[i - 1]);
                    lemma_listed_count(before, i - 1);
                } else {
                    lemma_unlisted_count(before, ship@);
                }
            }
        }
    }
}

/// The count that a list gives a ship: zero where it does not hold the ship.
spec fn listed_count(counts: Seq<ShipCountView>, ship: ShipView) -> u64 {
    if occurs(counts, ship) {
        counts[choose|i: int| 0 <= i < counts.len() && (#[trigger] counts[i]).ship == ship].count
    } else {
        0
    }
}

/// The count of `ship` in a list once `counted` was counted `count` times more.
spec fn entry_count(
    counts: Seq<ShipCountView>,
    ship: ShipView,
    counted: ShipView,
    count: u64,
) -> u64 {
    if ship == counted {
        capped((listed_count(counts, ship) + count) as nat)
    } else {
        listed_count(counts, ship)
    }
}

/// In an ordered list, the count that the list gives a ship is that of its entry.
proof fn lemma_listed_count(counts: Seq<ShipCountView>, i: int)
    requires
        ships_ascend(counts),
        0 <= i < counts.len(),
    ensures
        listed_count(counts, counts[i].ship) == counts[i].count,
{
    let ship = counts[i].ship;
    assert(occurs(counts, ship));
    let j = choose|j: int| 0 <= j < counts.len() && (#[trigger] counts[j]).ship == ship;
    if j != i {
        lemma_ship_before_order(ship, ship, ship);
    }
}

/// A list gives a ship that it does not hold the count zero.
proof fn lemma_unlisted_count(counts: Seq<ShipCountView>, ship: ShipView)
    requires
        forall|i: int| 0 <= i < counts.len() ==> (#[trigger] counts[i]).ship != ship,
    ensures
        listed_count(counts, ship) == 0,
{
}

/// Adding to a sum that stopped at the largest count gives what adding to the sum
/// itself gives.
pub proof fn lemma_capped_add(n: nat, count: u64)
    ensures
        capped((capped(n) + count) as nat) == capped((n + count) as nat),
{
}

/// One more entry adds its count to its ship, and to no other.
pub proof fn lemma_tally_step(entries: Seq<ShipCountView>, ship: ShipView, k: int)
    requires
        0 <= k < entries.len(),
    ensures
        tally(entries.take(k + 1), ship) == tally(entries.take(k), ship) + if entries[k].ship
            == ship {
            entries[k].count as nat
        } else {
            0
        },
        occurs(entries.take(k + 1), ship) <==> occurs(entries.take(k), ship) || entries[k].ship
            == ship,
{
    let next = entries.take(k + 1);
    let done = entries.take(k);
    assert(next.drop_last() == done);
    assert(next.last() == entries[k]);
    if occurs(done, ship) {
        let i = choose|i: int| 0 <= i < done.len() && (#[trigger] done[i]).ship == ship;
        assert(next[i] == done[i]);
    }
    if entries[k].ship == ship {
        assert(next[k] == entries[k]);
    }
    if occurs(next, ship) {
        let i = choose|i: int| 0 <= i < next.len() && (#[trigger] next[i]).ship == ship;
        if i < k {
            assert(done[i] == next[i]);
        }
    }
}

/// A copy of a ship.
fn copy_of(ship: &Ship) -> (r: Ship)
    ensures
        r@ == ship@,
{
    Ship { first: ship.first.clone(), second: ship.second.clone(), kind: ship.kind }
}

/// The report on `entries`: each of their ships once, in the order of the ships, with
/// the sum of the counts that stand with it.
pub fn merge_counts(entries: &Vec<ShipCount>) -> (r: Vec<ShipCount>)
    ensures
        is_report(r.deep_view(), entries.deep_view()),
{
    let mut counts: Vec<ShipCount> = Vec::new();
    let mut i: usize = 0;
    let ghost all = entries.deep_view();
    while i < entries.len()
        invariant
            i <= entries.len(),
            all == entries.deep_view(),
            is_report(counts.deep_view(), all.take(i as int)),
        decreases entries.len() - i,
    {
        let ghost done = all.take(i as int);
        let ghost next = all.take(i + 1);
        let ghost before = counts.deep_view();
        let count = entries[i].count;
        let ship = copy_of(&entries[i].ship);
        let ghost counted = ship@;
        assert(all[i as int] == entries[i as int]@);
        count_ship(&mut counts, ship, count);
        proof {
            let after = counts.deep_view();
            assert forall|j: int| 0 <= j < after.len() implies occurs(next, (#[trigger] after[j]).ship)
                && after[j].count == capped(tally(next, after[j].ship)) by {
                let s = after[j].ship;
                lemma_tally_step(all, s, i as int);
                assert(occurs(after, s));
                if occurs(before, s) {
                    let b = choose|b: int| 0 <= b < before.len() && (#[trigger] before[b]).ship == s;
                    lemma_listed_count(before, b);
                } else {
                    assert(!occurs(done, s));
                    lemma_tally_absent(done, s);
                }
                lemma_capped_add(tally(done, s), count);
            }
            assert forall|s: ShipView| occurs(next, s) implies occurs(after, s) by {
                lemma_tally_step(all, s, i as int);
            }
        }
        i += 1;
    }
    assert(all.take(entries.len() as int) == all);
    counts
}

/// How often each pair of characters was counted.
#[derive(Debug, Clone, PartialEq, Eq)]
pub struct CoOccurrenceMatrix {
    /// The characters, in the order of their names, each of them once.
    pub names: Vec<String>,
    /// For each character a row, and in it for each character a count, both in the order
    /// of `names`.
    pub matrix: Vec<Vec<u64>>,
}

/// A matrix, with the names as sequences of characters.
pub ghost struct MatrixView {
    pub names: Seq<Seq<char>>,
    pub matrix: Seq<Seq<u64>>,
}

impl View for CoOccurrenceMatrix {
    type V = MatrixView;

    open spec fn view(&self) -> MatrixView {
        MatrixView { names: self.names.deep_view(), matrix: self.matrix.deep_view() }
    }
}

impl MatrixView {
    /// The matrix has a row and a column for each name.
    pub open spec fn square(self) -> bool {
        &&& self.matrix.len() == self.names.len()
        &&& forall|i: int|
            0 <= i < self.matrix.len() ==> (#[trigger] self.matrix[i]).len() == self.names.len()
    }

    /// Each count stands at both places of its pair.
    pub open spec fn symmetric(self) -> bool {
        forall|i: int, j: int|
            0 <= i < self.names.len() && 0 <= j < self.names.len() ==> self.matrix[i][j]
                == self.matrix[j][i]
    }
}

/// Whether the names of a list stand in their order, each of them once.
pub open spec fn names_ascend(names: Seq<Seq<char>>) -> bool {
    forall|i: int, j: int| 0 <= i < j < names.len() ==> lex_lt(#[trigger] names[i], #[trigger] names[j])
}

/// Whether `name` is one of the two names of a ship.
pub open spec fn names_one(ship: ShipView, name: Seq<char>) -> bool {
    ship.first == name || ship.second == name
}

/// Whether `name` is in one of the ships of `entries`.
pub open spec fn named(entries: Seq<ShipCountView>, name: Seq<char>) -> bool {
    exists|i: int| 0 <= i < entries.len() && names_one((#[trigger] entries[i]).ship, name)
}

/// What one entry adds to the count at row `a` and column `b`: its count if its ship is
/// that of `a` and `b`, and twice its count if `a` and `b` are one character.
pub open spec fn share(entry: ShipCountView, a: Seq<char>, b: Seq<char>) -> nat {
    (if entry.ship.first == a && entry.ship.second == b {
        entry.count as nat
    } else {
        0
    }) + (if entry.ship.first == b && entry.ship.second == a {
        entry.count as nat
    } else {
        0
    })
}

/// How often the characters `a` and `b` were counted together: the sum of what each
/// entry adds.
pub open spec fn weight(entries: Seq<ShipCountView>, a: Seq<char>, b: Seq<char>) -> nat
    decreases entries.len(),
{
    if entries.len() == 0 {
        0
    } else {
        weight(entries.drop_last(), a, b) + share(entries.last(), a, b)
    }
}

/// Whether `m` is the matrix of `entries`: its names are the characters of their ships,
/// each once and in order, and the count at each place is how often the two characters
/// of that place were counted together.
pub open spec fn is_co_occurrence(m: MatrixView, entries: Seq<ShipCountView>) -> bool {
    &&& names_ascend(m.names)
    &&& forall|name: Seq<char>| m.names.contains(name) <==> named(entries, name)
    &&& m.square()
    &&& forall|i: int, j: int|
        0 <= i < m.names.len() && 0 <= j < m.names.len() ==> #[trigger] m.matrix[i][j] == capped(
            weight(entries, m.names[i], m.names[j]),
        )
}

/// Two characters were counted together as often in one order as in the other.
pub proof fn lemma_weight_symmetric(entries: Seq<ShipCountView>, a: Seq<char>, b: Seq<char>)
    ensures
        weight(entries, a, b) == weight(entries, b, a),
    decreases entries.len(),
{
    if entries.len() > 0 {
        lemma_weight_symmetric(entries.drop_last(), a, b);
    }
}

/// Among ships of one kind with their names in order, two different characters were
/// counted together as often as their ship was counted, and a character was counted with
/// itself twice as often as the ship of that character alone.
pub proof fn lemma_weight_is_tally(
    entries: Seq<ShipCountView>,
    kind: ShipKind,
    a: Seq<char>,
    b: Seq<char>,
)
    requires
        forall|i: int|
            0 <= i < entries.len() ==> (#[trigger] entries[i]).ship.kind == kind
                && entries[i].ship.wf(),
    ensures
        a != b ==> weight(entries, a, b) == tally(entries, pair(a, b, kind)),
        a == b ==> weight(entries, a, b) == 2 * tally(entries, pair(a, b, kind)),
    decreases entries.len(),
{
    if entries.len() > 0 {
        let rest = entries.drop_last();
        assert(entries[entries.len() - 1] == entries.last());
        assert forall|i: int| 0 <= i < rest.len() implies (#[trigger] rest[i]).ship.kind == kind
            && rest[i].ship.wf() by {
            assert(rest[i] == entries[i]);
        }
        lemma_weight_is_tally(rest, kind, a, b);
        lemma_lex_le_total(a, b);
        if lex_le(a, b) && lex_le(b, a) {
            lemma_lex_le_antisymmetric(a, b);
        }
    }
}

/// Where no ship is that of one character with itself, no character was counted with
/// itself.
pub proof fn lemma_diagonal_zero(entries: Seq<ShipCountView>, a: Seq<char>)
    requires
        forall|i: int|
            0 <= i < entries.len() ==> (#[trigger] entries[i]).ship.first != entries[i].ship.second,
    ensures
        weight(entries, a, a) == 0,
    decreases entries.len(),
{
    if entries.len() > 0 {
        let rest = entries.drop_last();
        assert(entries[entries.len() - 1] == entries.last());
        assert forall|i: int| 0 <= i < rest.len() implies (#[trigger] rest[i]).ship.first
            != rest[i].ship.second by {
            assert(rest[i] == entries[i]);
        }
        lemma_diagonal_zero(rest, a);
    }
}

/// One more entry adds its share to each count, and its ship's names to the names.
pub proof fn lemma_weight_step(entries: Seq<ShipCountView>, a: Seq<char>, b: Seq<char>, k: int)
    requires
        0 <= k < entries.len(),
    ensures
        weight(entries.take(k + 1), a, b) == weight(entries.take(k), a, b) + share(
            entries[k],
            a,
            b,
        ),
        named(entries.take(k + 1), a) <==> named(entries.take(k), a) || names_one(
            entries[k].ship,
            a,
        ),
{
    let next = entries.take(k + 1);
    let done = entries.take(k);
    assert(next.drop_last() == done);
    assert(next.last() == entries[k]);
    if named(done, a) {
        let i = choose|i: int| 0 <= i < done.len() && names_one((#[trigger] done[i]).ship, a);
        assert(next[i] == done[i]);
    }
    if names_one(entries[k].ship, a) {
        assert(next[k] == entries[k]);
    }
    if named(next, a) {
        let i = choose|i: int| 0 <= i < next.len() && names_one((#[trigger] next[i]).ship, a);
        if i < k {
            assert(done[i] == next[i]);
        }
    }
}

/// Puts `name` at its place in an ordered list of names, unless it is there.
fn add_name(names: &mut Vec<String>, name: &String)
    requires
        names_ascend(old(names).deep_view()),
    ensures
        names_ascend(final(names).deep_view()),
        forall|other: Seq<char>|
            final(names).deep_view().contains(other) <==> other == name@ || old(
                names,
            ).deep_view().contains(other),
{
    let ghost before = names.deep_view();
    let mut k: usize = 0;
    while k < names.len() && !text_le(name.as_str(), names[k].as_str())
        invariant
            k <= names.len(),
            before == names.deep_view(),
            forall|j: int| 0 <= j < k ==> lex_lt(#[trigger] before[j], name@),
        decreases names.len() - k,
    {
        proof {
            assert(before[k as int] == names[k as int]@);
            lemma_lex_le_total(name@, before[k as int]);
        }
        k += 1;
    }
    if k < names.len() && text_le(names[k].as_str(), name.as_str()) {
        proof {
            assert(before[k as int] == names[k as int]@);
            lemma_lex_le_antisymmetric(name@, before[k as int]);
        }
        return ;
    }
    proof {
        if k < names.len() {
            assert(before[k as int] == names[k as int]@);
            lemma_lex_le_total(name@, before[k as int]);
        }
        assert forall|j: int| k <= j < before.len() implies lex_lt(name@, #[trigger] before[j]) by {
            if j > k {
                lemma_lex_le_transitive(name@, before[k as int], before[j]);
                if name@ == before[j] {
                    lemma_lex_le_antisymmetric(before[k as int], before[j]);
                }
            }
        }
    }
    names.insert(k, name.clone());
    proof {
        let after = names.deep_view();
        assert(after =~= before.insert(k as int, name@));
        assert forall|i: int, j: int| 0 <= i < j < after.len() implies lex_lt(
            #[trigger] after[i],
            #[trigger] after[j],
        ) by {
            if i < k && j > k {
                assert(after[i] == before[i] && after[j] == before[j - 1]);
            } else if i < k && j < k {
                assert(after[i] == before[i] && after[j] == before[j]);
            } else if i > k {
                assert(after[i] == before[i - 1] && after[j] == before[j - 1]);
            } else if i == k {
                assert(after[j] == before[j - 1]);
            } else {
                assert(after[i] == before[i]);
            }
        }
        assert forall|other: Seq<char>| after.contains(other) <==> other == name@
            || before.contains(other) by {
            if after.contains(other) && other != name@ {
                let i = choose|i: int| 0 <= i < after.len() && after[i] == other;
                if i < k {
                    assert(before[i] == other);
                } else {
                    assert(before[i - 1] == other);
                }
            }
            if before.contains(other) {
                let i = choose|i: int| 0 <= i < before.len() && before[i] == other;
                if i < k {
                    assert(after[i] == other);
                } else {
                    assert(after[i + 1] == other);
                }
            }
            if other == name@ {
                assert(after[k as int] == other);
            }
        }
    }
}

/// Where `name` stands in a list that holds it.
fn position(names: &Vec<String>, name: &String) -> (r: usize)
    requires
        names.deep_view().contains(name@),
    ensures
        r < names.len(),
        names.deep_view()[r as int] == name@,
{
    let mut k: usize = 0;
    while k < names.len() && !same_text(names[k].as_str(), name.as_str())
        invariant
            k <= names.len(),
            forall|j: int| 0 <= j < k ==> (#[trigger] names.deep_view()[j]) != name@,
        decreases names.len() - k,
    {
        assert(names.deep_view()[k as int] == names[k as int]@);
        k += 1;
    }
    proof {
        let i = choose|i: int| 0 <= i < names.deep_view().len() && names.deep_view()[i] == name@;
        if k < names.len() {
            assert(names.deep_view()[k as int] == names[k as int]@);
        }
    }
    k
}

/// A matrix of `n` rows and `n` columns that holds zero at each place.
fn zeros(n: usize) -> (r: Vec<Vec<u64>>)
    ensures
        r.len() == n,
        forall|i: int| 0 <= i < n ==> (#[trigger] r[i]).len() == n,
        forall|i: int, j: int| 0 <= i < n && 0 <= j < n ==> (#[trigger] r[i][j]) == 0,
{
    let mut rows: Vec<Vec<u64>> = Vec::new();
    let mut i: usize = 0;
    while i < n
        invariant
            i <= n,
            rows.len() == i,
            forall|x: int| 0 <= x < i ==> (#[trigger] rows[x]).len() == n,
            forall|x: int, y: int| 0 <= x < i && 0 <= y < n ==> (#[trigger] rows[x][y]) == 0,
        decreases n - i,
    {
        let mut row: Vec<u64> = Vec::new();
        let mut j: usize = 0;
        while j < n
            invariant
                j <= n,
                row.len() == j,
                forall|y: int| 0 <= y < j ==> (#[trigger] row[y]) == 0,
            decreases n - j,
        {
            row.push(0);
            j += 1;
        }
        rows.push(row);
        i += 1;
    }
    rows
}

/// Adds `count` to the count at row `x` and column `y`.
fn add_at(rows: &mut Vec<Vec<u64>>, x: usize, y: usize, count: u64)
    requires
        x < old(rows).len(),
        y < old(rows)[x as int].len(),
    ensures
        final(rows).len() == old(rows).len(),
        forall|i: int| 0 <= i < old(rows).len() ==> (#[trigger] final(rows)[i]).len() == old(rows)[i].len(),
        forall|i: int, j: int|
            0 <= i < old(rows).len() && 0 <= j < old(rows)[i].len() ==> (#[trigger] final(rows)[i][j])
                == if i == x && j == y {
                capped((old(rows)[i][j] + count) as nat)
            } else {
                old(rows)[i][j]
            },
{
    let sum = rows[x][y].saturating_add(count);
    rows[x][y] = sum;
}

/// In an ordered list of names, a name stands at one place only.
proof fn lemma_name_once(names: Seq<Seq<char>>, i: int, j: int)
    requires
        names_ascend(names),
        0 <= i < names.len(),
        0 <= j < names.len(),
        names[i] == names[j],
    ensures
        i == j,
{
    if i < j {
        assert(lex_lt(names[i], names[j]));
    } else if j < i {
        assert(lex_lt(names[j], names[i]));
    }
}

/// The characters of the ships of `entries`, each once, in the order of their names.
fn character_names(entries: &Vec<ShipCount>) -> (r: Vec<String>)
    ensures
        names_ascend(r.deep_view()),
        forall|name: Seq<char>| r.deep_view().contains(name) <==> named(entries.deep_view(), name),
{
    let ghost all = entries.deep_view();
    let mut names: Vec<String> = Vec::new();
    let mut i: usize = 0;
    assert forall|name: Seq<char>| !named(all.take(0), name) by {}
    while i < entries.len()
        invariant
            i <= entries.len(),
            all == entries.deep_view(),
            names_ascend(names.deep_view()),
            forall|name: Seq<char>| names.deep_view().contains(name) <==> named(all.take(i as int), name),
        decreases entries.len() - i,
    {
        assert(all[i as int] == entries[i as int]@);
        add_name(&mut names, &entries[i].ship.first);
        add_name(&mut names, &entries[i].ship.second);
        proof {
            let after = names.deep_view();
            assert forall|name: Seq<char>| after.contains(name) <==> named(all.take(i + 1), name) by {
                lemma_weight_step(all, name, name, i as int);
            }
        }
        i += 1;
    }
    assert(all.take(entries.len() as int) == all);
    names
}

/// The matrix of `entries`.
///
/// Its names are the characters of their ships, each once, in the order of their names.
/// Each entry adds its count at the row of its ship's first character and the column of
/// the second, and at the row of the second and the column of the first.
pub fn matrix_of(entries: &Vec<ShipCount>) -> (r: CoOccurrenceMatrix)
    ensures
        is_co_occurrence(r@, entries.deep_view()),
        r@.symmetric(),
{
    let names = character_names(entries);
    let n = names.len();
    let ghost all = entries.deep_view();
    let ghost labels = names.deep_view();
    let mut matrix = zeros(n);
    let mut i: usize = 0;
    while i < entries.len()
        invariant
            i <= entries.len(),
            all == entries.deep_view(),
            labels == names.deep_view(),
            n == names.len(),
            names_ascend(labels),
            forall|name: Seq<char>| labels.contains(name) <==> named(all, name),
            matrix.len() == n,
            forall|x: int| 0 <= x < n ==> (#[trigger] matrix[x]).len() == n,
            forall|x: int, y: int|
                0 <= x < n && 0 <= y < n ==> (#[trigger] matrix[x][y]) == capped(
                    weight(all.take(i as int), labels[x], labels[y]),
                ),
        decreases entries.len() - i,
    {
        let ghost before = matrix;
        let entry = &entries[i];
        let count = entry.count;
        proof {
            assert(all[i as int] == entry@);
            assert(names_one(all[i as int].ship, entry.ship.first@));
            assert(names_one(all[i as int].ship, entry.ship.second@));
            assert(named(all, entry.ship.first@));
            assert(named(all, entry.ship.second@));
        }
        let a = position(&names, &entry.ship.first);
        let b = position(&names, &entry.ship.second);
        add_at(&mut matrix, a, b, count);
        let ghost between = matrix;
        add_at(&mut matrix, b, a, count);
        proof {
            assert forall|x: int, y: int| 0 <= x < n && 0 <= y < n implies (#[trigger] matrix[x][y])
                == capped(weight(all.take(i + 1), labels[x], labels[y])) by {
                lemma_weight_step(all, labels[x], labels[y], i as int);
                let w = weight(all.take(i as int), labels[x], labels[y]);
                assert(before[x][y] == capped(w));
                if labels[x] == entry.ship.first@ {
                    lemma_name_once(labels, x, a as int);
                }
                if labels[y] == entry.ship.second@ {
                    lemma_name_once(labels, y, b as int);
                }
                if labels[x] == entry.ship.second@ {
                    lemma_name_once(labels, x, b as int);
                }
                if labels[y] == entry.ship.first@ {
                    lemma_name_once(labels, y, a as int);
                }
                lemma_capped_add(w, count);
                lemma_capped_add((w + count) as nat, count);
                assert(between[x][y] == if x == a && y == b {
                    capped((before[x][y] + count) as nat)
                } else {
                    before[x][y]
                });
                assert(matrix[x][y] == if x == b && y == a {
                    capped((between[x][y] + count) as nat)
                } else {
                    between[x][y]
                });
            }
        }
        i += 1;
    }
    let r = CoOccurrenceMatrix { names, matrix };
    proof {
        assert(all.take(entries.len() as int) == all);
        let m = r@;
        assert(m.names == labels);
        assert forall|x: int| 0 <= x < m.matrix.len() implies (#[trigger] m.matrix[x]).len()
            == m.names.len() by {
            assert(m.matrix[x] == r.matrix[x].deep_view());
        }
        assert forall|x: int, y: int| 0 <= x < n && 0 <= y < n implies #[trigger] m.matrix[x][y]
            == capped(weight(all, m.names[x], m.names[y])) by {
            assert(m.matrix[x] == r.matrix[x].deep_view());
            assert(m.matrix[x][y] == r.matrix[x][y]);
        }
        assert forall|x: int, y: int| 0 <= x < n && 0 <= y < n implies m.matrix[x][y]
            == m.matrix[y][x] by {
            lemma_weight_symmetric(all, m.names[x], m.names[y]);
        }
    }
    r
}

/// Reads the tags of `pairs` and keeps the ships of `kind` that they name, in the order
/// of the tags, each with the count of its tag. A tag that names no ship, or a ship of
/// the other kind, is passed over.
pub fn retained_ships(pairs: &Vec<(String, u64)>, kind: ShipKind) -> (r: Vec<ShipCount>)
    ensures
        r.deep_view() == kept(pairs.deep_view(), kind),
{
    let ghost all = pairs.deep_view();
    let mut ships: Vec<ShipCount> = Vec::new();
    let mut i: usize = 0;
    assert(ships.deep_view() =~= kept(all.take(0), kind));
    while i < pairs.len()
        invariant
            i <= pairs.len(),
            all == pairs.deep_view(),
            ships.deep_view() == kept(all.take(i as int), kind),
        decreases pairs.len() - i,
    {
        proof {
            assert(all[i as int] == (pairs[i as int].0@, pairs[i as int].1));
            assert(all.take(i + 1).drop_last() == all.take(i as int));
            assert(all.take(i + 1).last() == all[i as int]);
        }
        let ghost before = ships.deep_view();
        match Ship::from_str(pairs[i].0.as_str()) {
            Ok(ship) => {
                if ship.kind == kind {
                    let ghost entry = ShipCountView { ship: ship@, count: pairs[i as int].1 };
                    ships.push(ShipCount { ship, count: pairs[i].1 });
                    assert(ships.deep_view() =~= before.push(entry));
                }
            },
            Err(_) => {},
        }
        i += 1;
    }
    assert(all.take(pairs.len() as int) == all);
    ships
}

/// The report on the ships of `kind` among the tags of `pairs`: each ship that some tag
/// names, once, in the order of the ships, with the sum of the counts of all the tags
/// that name it. A tag that names no ship, or a ship of the other kind, is passed over.
pub fn ship_counts(pairs: &Vec<(String, u64)>, kind: ShipKind) -> (r: Vec<ShipCount>)
    ensures
        is_report(r.deep_view(), kept(pairs.deep_view(), kind)),
{
    let ships = retained_ships(pairs, kind);
    merge_counts(&ships)
}

/// The matrix of the ships of `kind` among the tags of `pairs`.
///
/// Its names are the characters of those ships, each once, in the order of their names.
/// The count at row `i` and column `j` is the sum of the counts of the tags that name
/// the ship of characters `i` and `j`; the same count stands at row `j` and column `i`.
/// A tag that names no ship, or a ship of the other kind, is passed over.
pub fn co_occurrence(pairs: &Vec<(String, u64)>, kind: ShipKind) -> (r: CoOccurrenceMatrix)
    ensures
        is_co_occurrence(r@, kept(pairs.deep_view(), kind)),
        r@.symmetric(),
{
    let ships = retained_ships(pairs, kind);
    matrix_of(&ships)
}

/// A matrix of ships holds each count at both places of its pair, and where no ship is
/// that of one character with itself, it holds zero at each place of a character with
/// itself.
pub proof fn lemma_symmetric_and_hollow(m: MatrixView, entries: Seq<ShipCountView>)
    requires
        is_co_occurrence(m, entries),
    ensures
        m.symmetric(),
        (forall|k: int|
            0 <= k < entries.len() ==> (#[trigger] entries[k]).ship.first != entries[k].ship.second)
            ==> forall|i: int| 0 <= i < m.names.len() ==> (#[trigger] m.matrix[i])[i] == 0,
{
    assert forall|i: int, j: int| 0 <= i < m.names.len() && 0 <= j < m.names.len() implies m.matrix[i][j]
        == m.matrix[j][i] by {
        lemma_weight_symmetric(entries, m.names[i], m.names[j]);
    }
    if forall|k: int|
        0 <= k < entries.len() ==> (#[trigger] entries[k]).ship.first != entries[k].ship.second {
        assert forall|i: int| 0 <= i < m.names.len() implies (#[trigger] m.matrix[i])[i] == 0 by {
            lemma_diagonal_zero(entries, m.names[i]);
            assert(m.matrix[i][i] == capped(weight(entries, m.names[i], m.names[i])));
        }
    }
}

/// What is kept of the tags is, for each tag in turn, the ship that it stands for.
pub proof fn lemma_kept(pairs: Seq<(Seq<char>, u64)>, kind: ShipKind)
    ensures
        kept(pairs, kind).len() <= pairs.len(),
        forall|i: int|
            0 <= i < kept(pairs, kind).len() ==> (#[trigger] kept(pairs, kind)[i]).ship.kind == kind
                && kept(pairs, kind)[i].ship.wf(),
        forall|ship: ShipView|
            occurs(kept(pairs, kind), ship) <==> exists|i: int|
                0 <= i < pairs.len() && retained((#[trigger] pairs[i]).0, kind) == Some(ship),
    decreases pairs.len(),
{
    if pairs.len() > 0 {
        let rest = pairs.drop_last();
        let last = pairs.last();
        lemma_kept(rest, kind);
        lemma_parsed_wf(last.0);
        let all = kept(pairs, kind);
        let most = kept(rest, kind);
        assert(pairs[pairs.len() - 1] == last);
        assert forall|ship: ShipView| occurs(all, ship) <==> exists|i: int|
            0 <= i < pairs.len() && retained((#[trigger] pairs[i]).0, kind) == Some(ship) by {
            if occurs(all, ship) {
                let k = choose|k: int| 0 <= k < all.len() && (#[trigger] all[k]).ship == ship;
                if k < most.len() {
                    assert(most[k] == all[k]);
                    assert(occurs(most, ship));
                    let i = choose|i: int|
                        0 <= i < rest.len() && retained((#[trigger] rest[i]).0, kind) == Some(ship);
                    assert(pairs[i] == rest[i]);
                } else {
                    assert(retained(pairs[pairs.len() - 1].0, kind) == Some(ship));
                }
            }
            if exists|i: int|
                0 <= i < pairs.len() && retained((#[trigger] pairs[i]).0, kind) == Some(ship) {
                let i = choose|i: int|
                    0 <= i < pairs.len() && retained((#[trigger] pairs[i]).0, kind) == Some(ship);
                if i < rest.len() {
                    assert(rest[i] == pairs[i]);
                    assert(occurs(most, ship));
                    let k = choose|k: int| 0 <= k < most.len() && (#[trigger] most[k]).ship == ship;
                    assert(all[k] == most[k]);
                } else {
                    assert(all[all.len() - 1].ship == ship);
                }
            }
        }
    } else {
        assert forall|ship: ShipView| !occurs(kept(pairs, kind), ship) by {}
    }
}

/// Two tags that stand for one ship are counted together: the ship's count is the sum
/// of theirs, and it is what stands at both places of the ship's two characters.
pub proof fn lemma_duplicates_summed(
    one: (Seq<char>, u64),
    other: (Seq<char>, u64),
    kind: ShipKind,
    ship: ShipView,
)
    requires
        retained(one.0, kind) == Some(ship),
        retained(other.0, kind) == Some(ship),
        ship.first != ship.second,
    ensures
        tally(kept(seq![one, other], kind), ship) == one.1 + other.1,
        weight(kept(seq![one, other], kind), ship.first, ship.second) == one.1 + other.1,
        weight(kept(seq![one, other], kind), ship.second, ship.first) == one.1 + other.1,
{
    let pairs = seq![one, other];
    reveal_with_fuel(kept, 3);
    reveal_with_fuel(tally, 3);
    reveal_with_fuel(weight, 3);
    assert(pairs.drop_last() == seq![one]);
    assert(seq![one].drop_last() == Seq::<(Seq<char>, u64)>::empty());
    assert(pairs.last() == other);
    assert(seq![one].last() == one);
    let a = ShipCountView { ship, count: one.1 };
    let b = ShipCountView { ship, count: other.1 };
    let entries = kept(pairs, kind);
    assert(kept(seq![one], kind) =~= seq![a]);
    assert(entries =~= seq![a, b]);
    assert(entries.drop_last() =~= seq![a]);
    assert(seq![a].drop_last() =~= Seq::<ShipCountView>::empty());
    assert(tally(seq![a], ship) == one.1);
    assert(weight(seq![a], ship.first, ship.second) == one.1);
    lemma_weight_symmetric(entries, ship.first, ship.second);
}

} // verus!
