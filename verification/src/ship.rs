//! Relationship tags: from the free text of a tag to a pair of character names in a fixed
//! order, and the kind of relationship that the tag's separator stands for.
use vstd::prelude::*;
use crate::search::ShipKind;
use crate::text::{
    all_space, before, chars_le, chars_of, find_first, first_of, is_space, lemma_first_of,
    lemma_first_of_is, lemma_lex_le_antisymmetric, lemma_lex_le_total, lemma_split_len,
    lemma_trim_is_part, lemma_trim_nothing, lemma_trim_padding, lex_le, split, trim, trim_range,
    trim_start,
};

verus! {

/// Why a tag names no ship.
#[derive(Debug, Clone, Copy, PartialEq, Eq, Structural)]
pub enum ShipParseError {
    /// The tag holds neither `/` nor `&`.
    UnknownShipKind,
    /// The tag does not name exactly two characters.
    UnsupportedArity,
}

/// Two characters and the kind of their relationship.
#[derive(Debug, PartialEq, Eq, PartialOrd, Ord, Clone, Hash)]
pub struct Ship {
    /// The name that comes first in the order of the code points.
    pub first: String,
    /// The other name.
    pub second: String,
    pub kind: ShipKind,
}

/// A ship, with its names as sequences of characters.
pub ghost struct ShipView {
    pub first: Seq<char>,
    pub second: Seq<char>,
    pub kind: ShipKind,
}

impl View for Ship {
    type V = ShipView;

    open spec fn view(&self) -> ShipView {
        ShipView { first: self.first@, second: self.second@, kind: self.kind }
    }
}

impl DeepView for Ship {
    type V = ShipView;

    open spec fn deep_view(&self) -> ShipView {
        self@
    }
}

impl ShipView {
    /// The names are in order.
    pub open spec fn wf(self) -> bool {
        lex_le(self.first, self.second)
    }
}

/// The name in one piece of a tag: what stands before the first `(`, without the white
/// space around it.
pub open spec fn clean(piece: Seq<char>) -> Seq<char> {
    trim(before(piece, '('))
}

/// The ship of two names, whichever comes first.
pub open spec fn pair(a: Seq<char>, b: Seq<char>, kind: ShipKind) -> ShipView {
    if lex_le(a, b) {
        ShipView { first: a, second: b, kind }
    } else {
        ShipView { first: b, second: a, kind }
    }
}

/// The ship that the pieces of a tag name: there must be two of them.
pub open spec fn ship_of_pieces(pieces: Seq<Seq<char>>, kind: ShipKind) -> Result<
    ShipView,
    ShipParseError,
> {
    if pieces.len() == 2 {
        Ok(pair(clean(pieces[0]), clean(pieces[1]), kind))
    } else {
        Err(ShipParseError::UnsupportedArity)
    }
}

/// The ship that a tag names. A tag that holds `/` is cut at each `/` and names a
/// romantic ship; any other tag that holds `&` is cut at each `&` and names a platonic
/// one.
pub open spec fn parse_ship(tag: Seq<char>) -> Result<ShipView, ShipParseError> {
    if tag.contains('/') {
        ship_of_pieces(split(tag, '/'), ShipKind::Romantic)
    } else if tag.contains('&') {
        ship_of_pieces(split(tag, '&'), ShipKind::Platonic)
    } else {
        Err(ShipParseError::UnknownShipKind)
    }
}

/// The character that cuts the tags of a kind.
pub open spec fn separator(kind: ShipKind) -> char {
    match kind {
        ShipKind::Romantic => '/',
        ShipKind::Platonic => '&',
    }
}

/// A ship as a tag: its two names with the separator of its kind between them.
pub open spec fn tag_of(ship: ShipView) -> Seq<char> {
    ship.first + seq![separator(ship.kind)] + ship.second
}

/// `first_of` finds a character exactly where the text holds it.
pub proof fn lemma_first_of_contains(s: Seq<char>, c: char)
    ensures
        s.contains(c) <==> first_of(s, c) < s.len(),
{
    lemma_first_of(s, c);
    if s.contains(c) {
        let i = choose|i: int| 0 <= i < s.len() && s[i] == c;
        assert(s[i] == c);
    } else if first_of(s, c) < s.len() {
        assert(s[first_of(s, c)] == c);
    }
}

/// The two pieces of a text that holds one separator, and no other before or behind it.
pub proof fn lemma_split_two(s: Seq<char>, mark: char, at: int)
    requires
        0 <= at < s.len(),
        s[at] == mark,
        first_of(s.take(at), mark) == at,
        first_of(s.skip(at + 1), mark) == s.len() - at - 1,
    ensures
        split(s, mark) == seq![s.take(at), s.skip(at + 1)],
{
    lemma_first_of(s.take(at), mark);
    assert forall|j: int| 0 <= j < at implies s[j] != mark by {
        assert(s.take(at)[j] == s[j]);
    }
    lemma_first_of_is(s, mark, at);
    assert(split(s.skip(at + 1), mark) == seq![s.skip(at + 1)]);
    assert(seq![s.take(at)] + seq![s.skip(at + 1)] =~= seq![s.take(at), s.skip(at + 1)]);
}

/// A text that holds a second separator has more than two pieces.
pub proof fn lemma_split_many(s: Seq<char>, mark: char, at: int)
    requires
        0 <= at < s.len(),
        first_of(s, mark) == at,
        first_of(s.skip(at + 1), mark) < s.len() - at - 1,
    ensures
        split(s, mark).len() > 2,
{
    lemma_split_len(s.skip(at + 1), mark);
}

/// The position of the first `mark` in a text made of two parts.
pub proof fn lemma_first_of_concat(u: Seq<char>, v: Seq<char>, mark: char)
    ensures
        first_of(u + v, mark) == if first_of(u, mark) < u.len() {
            first_of(u, mark)
        } else {
            u.len() + first_of(v, mark)
        },
{
    lemma_first_of(u, mark);
    lemma_first_of(v, mark);
    let k = if first_of(u, mark) < u.len() {
        first_of(u, mark)
    } else {
        u.len() + first_of(v, mark)
    };
    assert forall|j: int| 0 <= j < k implies (u + v)[j] != mark by {
        if j >= u.len() {
            assert((u + v)[j] == v[j - u.len()]);
        }
    }
    if k < (u + v).len() {
        if first_of(u, mark) < u.len() {
            assert((u + v)[k] == u[k]);
        } else {
            assert((u + v)[k] == v[k - u.len()]);
        }
    }
    lemma_first_of_is(u + v, mark, k);
}

/// White space holds no character that is not white space.
pub proof fn lemma_space_lacks(w: Seq<char>, mark: char)
    requires
        all_space(w),
        !is_space(mark),
    ensures
        first_of(w, mark) == w.len(),
{
    lemma_first_of(w, mark);
    if first_of(w, mark) < w.len() {
        assert(is_space(w[first_of(w, mark)]));
    }
}

/// White space around a piece does not change the name in it.
pub proof fn lemma_clean_padding(w1: Seq<char>, x: Seq<char>, w2: Seq<char>)
    requires
        all_space(w1),
        all_space(w2),
    ensures
        clean(w1 + x + w2) == clean(x),
{
    let p = first_of(x, '(');
    lemma_first_of(x, '(');
    lemma_space_lacks(w1, '(');
    lemma_space_lacks(w2, '(');
    lemma_first_of_concat(w1, x, '(');
    lemma_first_of_concat(w1 + x, w2, '(');
    let none = Seq::<char>::empty();
    if p < x.len() {
        assert((w1 + x + w2).take(w1.len() + p) == w1 + x.take(p) + none);
        lemma_trim_padding(w1, x.take(p), none);
    } else {
        assert((w1 + x + w2).take((w1 + x + w2).len() as int) == w1 + x + w2);
        assert(x.take(p) == x);
        lemma_trim_padding(w1, x, w2);
    }
}

/// What follows the first `(` of a piece is no part of the name in it.
pub proof fn lemma_qualifier_dropped(name: Seq<char>, qualifier: Seq<char>)
    requires
        !name.contains('('),
    ensures
        clean(name + seq!['('] + qualifier) == clean(name),
{
    let piece = name + seq!['('] + qualifier;
    lemma_first_of_contains(name, '(');
    lemma_first_of(name, '(');
    assert forall|j: int| 0 <= j < name.len() implies piece[j] != '(' by {
        assert(piece[j] == name[j]);
    }
    assert(piece[name.len() as int] == '(');
    lemma_first_of_is(piece, '(', name.len() as int);
    assert(piece.take(name.len() as int) == name);
    assert(name.take(name.len() as int) == name);
}

/// A tag of two pieces around one separator names the ship of the names in its pieces.
pub proof fn lemma_parse_two(left: Seq<char>, separator: char, right: Seq<char>)
    requires
        separator == '/' || separator == '&',
        !left.contains(separator),
        !right.contains(separator),
        separator == '&' ==> !left.contains('/') && !right.contains('/'),
    ensures
        parse_ship(left + seq![separator] + right) == Ok::<ShipView, ShipParseError>(
            pair(
                clean(left),
                clean(right),
                if separator == '/' {
                    ShipKind::Romantic
                } else {
                    ShipKind::Platonic
                },
            ),
        ),
{
    let tag = left + seq![separator] + right;
    let at = left.len() as int;
    assert(tag[at] == separator);
    assert(tag.contains(separator));
    assert(tag.take(at) == left);
    assert(tag.skip(at + 1) == right);
    lemma_first_of_contains(left, separator);
    lemma_first_of_contains(right, separator);
    lemma_first_of(left, separator);
    lemma_first_of(right, separator);
    lemma_split_two(tag, separator, at);
    if separator == '&' {
        if tag.contains('/') {
            let i = choose|i: int| 0 <= i < tag.len() && tag[i] == '/';
            if i < at {
                assert(left[i] == '/');
            } else {
                assert(right[i - at - 1] == '/');
            }
        }
    }
}

/// Two tags that name the same two characters with the same separator name the same
/// ship, in whichever order they name the two, and whatever white space stands around
/// each name.
pub proof fn lemma_order_and_padding(
    x: Seq<char>,
    y: Seq<char>,
    separator: char,
    xl: Seq<char>,
    xr: Seq<char>,
    yl: Seq<char>,
    yr: Seq<char>,
    xl2: Seq<char>,
    xr2: Seq<char>,
    yl2: Seq<char>,
    yr2: Seq<char>,
)
    requires
        separator == '/' || separator == '&',
        !x.contains(separator),
        !y.contains(separator),
        separator == '&' ==> !x.contains('/') && !y.contains('/'),
        all_space(xl) && all_space(xr) && all_space(yl) && all_space(yr),
        all_space(xl2) && all_space(xr2) && all_space(yl2) && all_space(yr2),
    ensures
        parse_ship((xl + x + xr) + seq![separator] + (yl + y + yr)) == parse_ship(
            (yl2 + y + yr2) + seq![separator] + (xl2 + x + xr2),
        ),
        parse_ship((xl + x + xr) + seq![separator] + (yl + y + yr)) == parse_ship(
            (xl2 + x + xr2) + seq![separator] + (yl2 + y + yr2),
        ),
        parse_ship((xl + x + xr) + seq![separator] + (yl + y + yr)) is Ok,
{
    lemma_padded_lacks(xl, x, xr, separator);
    lemma_padded_lacks(yl, y, yr, separator);
    lemma_padded_lacks(xl2, x, xr2, separator);
    lemma_padded_lacks(yl2, y, yr2, separator);
    if separator == '&' {
        lemma_padded_lacks(xl, x, xr, '/');
        lemma_padded_lacks(yl, y, yr, '/');
        lemma_padded_lacks(xl2, x, xr2, '/');
        lemma_padded_lacks(yl2, y, yr2, '/');
    }
    lemma_parse_two(xl + x + xr, separator, yl + y + yr);
    lemma_parse_two(yl2 + y + yr2, separator, xl2 + x + xr2);
    lemma_parse_two(xl2 + x + xr2, separator, yl2 + y + yr2);
    lemma_clean_padding(xl, x, xr);
    lemma_clean_padding(yl, y, yr);
    lemma_clean_padding(xl2, x, xr2);
    lemma_clean_padding(yl2, y, yr2);
    lemma_pair_symmetric(clean(x), clean(y), ShipKind::Romantic);
    lemma_pair_symmetric(clean(x), clean(y), ShipKind::Platonic);
}

/// A text that lacks a character that is no white space still lacks it with white space
/// around it.
pub proof fn lemma_padded_lacks(w1: Seq<char>, x: Seq<char>, w2: Seq<char>, c: char)
    requires
        all_space(w1),
        all_space(w2),
        !is_space(c),
        !x.contains(c),
    ensures
        !(w1 + x + w2).contains(c),
{
    let s = w1 + x + w2;
    if s.contains(c) {
        let i = choose|i: int| 0 <= i < s.len() && s[i] == c;
        if i < w1.len() {
            assert(s[i] == w1[i]);
        } else if i < w1.len() + x.len() {
            assert(s[i] == x[i - w1.len()]);
        } else {
            assert(s[i] == w2[i - w1.len() - x.len()]);
        }
    }
}

/// The ship of two names does not depend on the order in which they are given.
pub proof fn lemma_pair_symmetric(a: Seq<char>, b: Seq<char>, kind: ShipKind)
    ensures
        pair(a, b, kind) == pair(b, a, kind),
        pair(a, b, kind).wf(),
{
    lemma_lex_le_total(a, b);
    if lex_le(a, b) && lex_le(b, a) {
        lemma_lex_le_antisymmetric(a, b);
    }
}

/// The name in a piece is a part of the piece, holds no `(`, and is itself the name in
/// it.
pub proof fn lemma_clean_is_clean(piece: Seq<char>)
    ensures
        forall|c: char| clean(piece).contains(c) ==> piece.contains(c),
        !clean(piece).contains('('),
        clean(clean(piece)) == clean(piece),
{
    let cut = before(piece, '(');
    let name = clean(piece);
    lemma_first_of(piece, '(');
    lemma_trim_is_part(cut);
    let lead = cut.len() - trim_start(cut).len();
    assert forall|c: char| name.contains(c) implies piece.contains(c) && c != '(' by {
        let i = choose|i: int| 0 <= i < name.len() && name[i] == c;
        assert(name[i] == cut[lead + i]);
        assert(cut[lead + i] == piece[lead + i]);
    }
    lemma_first_of_contains(name, '(');
    lemma_first_of(name, '(');
    assert(name.take(name.len() as int) == name);
    lemma_trim_nothing(name);
}

/// Each piece of a text lies between the separators: it holds none of them, and holds
/// nothing that the text does not hold.
pub proof fn lemma_pieces(s: Seq<char>, mark: char)
    ensures
        forall|i: int, j: int|
            0 <= i < split(s, mark).len() && 0 <= j < split(s, mark)[i].len() ==> {
                let c = #[trigger] split(s, mark)[i][j];
                c != mark && s.contains(c)
            },
    decreases s.len(),
{
    lemma_first_of(s, mark);
    let at = first_of(s, mark);
    let pieces = split(s, mark);
    if at < s.len() {
        let rest = s.skip(at + 1);
        lemma_pieces(rest, mark);
        assert forall|i: int, j: int| 0 <= i < pieces.len() && 0 <= j < pieces[i].len() implies {
            let c = #[trigger] pieces[i][j];
            c != mark && s.contains(c)
        } by {
            let c = pieces[i][j];
            if i == 0 {
                assert(pieces[0] == s.take(at));
                assert(s[j] == c);
            } else {
                assert(pieces[i] == split(rest, mark)[i - 1]);
                assert(split(rest, mark)[i - 1][j] == c);
                assert(rest.contains(c));
                let k = choose|k: int| 0 <= k < rest.len() && rest[k] == c;
                assert(s[at + 1 + k] == c);
            }
        }
    } else {
        assert forall|i: int, j: int| 0 <= i < pieces.len() && 0 <= j < pieces[i].len() implies {
            let c = #[trigger] pieces[i][j];
            c != mark && s.contains(c)
        } by {
            assert(pieces[i] == s);
            assert(s[j] == pieces[i][j]);
        }
    }
}

/// The tag of the ship that a tag names names that same ship: what parsing makes of a
/// tag, parsing leaves as it is.
pub proof fn lemma_canonical(tag: Seq<char>)
    requires
        parse_ship(tag) is Ok,
    ensures
        parse_ship(tag_of(parse_ship(tag)->Ok_0)) == parse_ship(tag),
{
    let ship = parse_ship(tag)->Ok_0;
    let mark = separator(ship.kind);
    let pieces = split(tag, mark);
    assert(pieces.len() == 2);
    let x = clean(pieces[0]);
    let y = clean(pieces[1]);
    lemma_pieces(tag, mark);
    lemma_clean_is_clean(pieces[0]);
    lemma_clean_is_clean(pieces[1]);
    lemma_pair_symmetric(x, y, ship.kind);
    assert forall|c: char| x.contains(c) || y.contains(c) implies c != mark && tag.contains(c) by {
        if x.contains(c) {
            assert(pieces[0].contains(c));
            let j = choose|j: int| 0 <= j < pieces[0].len() && pieces[0][j] == c;
            assert(pieces[0][j] == c);
        } else {
            assert(pieces[1].contains(c));
            let j = choose|j: int| 0 <= j < pieces[1].len() && pieces[1][j] == c;
            assert(pieces[1][j] == c);
        }
    }
    lemma_parse_two(ship.first, mark, ship.second);
}

/// A tag that holds `/` is read by `/` alone, whatever else it holds: an `&` in it is
/// part of a name, and the ship it names, if any, is romantic.
pub proof fn lemma_slash_decides(tag: Seq<char>)
    requires
        tag.contains('/'),
    ensures
        parse_ship(tag) == ship_of_pieces(split(tag, '/'), ShipKind::Romantic),
        parse_ship(tag) matches Ok(ship) ==> ship.kind == ShipKind::Romantic,
        parse_ship(tag) != Err::<ShipView, ShipParseError>(ShipParseError::UnknownShipKind),
{
}

/// The bounds of the name in the piece from `from` and before `to`.
fn clean_range(chars: &Vec<char>, from: usize, to: usize) -> (r: (usize, usize))
    requires
        from <= to <= chars.len(),
    ensures
        from <= r.0 <= r.1 <= to,
        chars@.subrange(r.0 as int, r.1 as int) == clean(chars@.subrange(from as int, to as int)),
{
    let end = find_first(chars, from, to, '(');
    assert(chars@.subrange(from as int, to as int).take(end - from) == chars@.subrange(
        from as int,
        end as int,
    ));
    trim_range(chars, from, end)
}

/// The ship of the two names at the given bounds in `tag`.
fn ship_of_ranges(
    tag: &str,
    chars: &Vec<char>,
    a: (usize, usize),
    b: (usize, usize),
    kind: ShipKind,
) -> (r: Ship)
    requires
        chars@ == tag@,
        a.0 <= a.1 <= chars.len(),
        b.0 <= b.1 <= chars.len(),
    ensures
        r@ == pair(
            tag@.subrange(a.0 as int, a.1 as int),
            tag@.subrange(b.0 as int, b.1 as int),
            kind,
        ),
        r@.wf(),
{
    let one = tag.substring_char(a.0, a.1).to_owned();
    let two = tag.substring_char(b.0, b.1).to_owned();
    let one_chars = chars_of(one.as_str());
    let two_chars = chars_of(two.as_str());
    proof {
        lemma_pair_symmetric(one@, two@, kind);
    }
    if chars_le(&one_chars, &two_chars) {
        Ship { first: one, second: two, kind }
    } else {
        Ship { first: two, second: one, kind }
    }
}

impl Ship {
    /// Writes the ship as a tag: its two names with the separator of its kind between
    /// them.
    pub fn to_tag(&self) -> (r: String)
        ensures
            r@ == tag_of(self@),
    {
        let mut out = String::from_str(self.first.as_str());
        proof {
            reveal_strlit("/");
            reveal_strlit("&");
            assert("/"@ =~= seq!['/']);
            assert("&"@ =~= seq!['&']);
        }
        match self.kind {
            ShipKind::Romantic => out.append("/"),
            ShipKind::Platonic => out.append("&"),
        }
        out.append(self.second.as_str());
        out
    }

    /// Reads a relationship tag.
    ///
    /// The tag is cut at each `/`; a tag without `/` is cut at each `&`; a tag with
    /// neither names no kind of ship. Each piece gives a name: what stands before its
    /// first `(`, without the white space around it. With two pieces, the result is the
    /// ship of the two names in their order; with any other number, the tag is refused.
    pub fn from_str(tag: &str) -> (r: Result<Ship, ShipParseError>)
        ensures
            match r {
                Ok(ship) => parse_ship(tag@) == Ok::<ShipView, ShipParseError>(ship@) && ship@.wf(),
                Err(e) => parse_ship(tag@) == Err::<ShipView, ShipParseError>(e),
            },
    {
        let chars = chars_of(tag);
        let n = chars.len();
        proof {
            assert(chars@.subrange(0, n as int) == tag@);
            lemma_first_of_contains(tag@, '/');
            lemma_first_of_contains(tag@, '&');
        }
        let slash = find_first(&chars, 0, n, '/');
        let (at, separator, kind) = if slash < n {
            (slash, '/', ShipKind::Romantic)
        } else {
            let ampersand = find_first(&chars, 0, n, '&');
            if ampersand < n {
                (ampersand, '&', ShipKind::Platonic)
            } else {
                return Err(ShipParseError::UnknownShipKind);
            }
        };
        let next = find_first(&chars, at + 1, n, separator);
        proof {
            assert(chars@.subrange(at + 1, n as int) == tag@.skip(at + 1));
            assert(chars@.subrange(0, at as int) == tag@.take(at as int));
            lemma_first_of(tag@, separator);
        }
        if next < n {
            proof {
                lemma_split_many(tag@, separator, at as int);
            }
            return Err(ShipParseError::UnsupportedArity);
        }
        proof {
            assert forall|j: int| 0 <= j < at implies tag@.take(at as int)[j] != separator by {
                assert(tag@.take(at as int)[j] == tag@[j]);
            }
            lemma_first_of_is(tag@.take(at as int), separator, at as int);
            lemma_split_two(tag@, separator, at as int);
        }
        let a = clean_range(&chars, 0, at);
        let b = clean_range(&chars, at + 1, n);
        Ok(ship_of_ranges(tag, &chars, a, b, kind))
    }
}

/// The two characters of a relationship tag and the kind of their relationship, for
/// callers that have no use for the reason why a tag names no ship. The tag is read as
/// `Ship::from_str` reads it: there is a ship exactly where that gives one, and it is the
/// same ship.
pub fn ship_to_characters(tag: &str) -> (r: Option<Ship>)
    ensures
        match r {
            Some(ship) => parse_ship(tag@) == Ok::<ShipView, ShipParseError>(ship@) && ship@.wf(),
            None => parse_ship(tag@) is Err,
        },
{
    match Ship::from_str(tag) {
        Ok(ship) => Some(ship),
        Err(_) => None,
    }
}

} // verus!
