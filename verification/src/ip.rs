//! IP addresses in their textual form.
use vstd::prelude::*;
use crate::host::{decimal_text, decimal_value, is_decimal, lemma_decimal_is_unique};
use crate::host::lemma_decimal_text;
use crate::text::{chars_of, joined, law_joined_splits, law_split, law_split_joins};
use crate::text::{lemma_split_nonempty, split, split_text, texts};

verus! {

/// An IP address: four bytes, or eight groups of 16 bits.
#[derive(Clone, Copy, PartialEq, Eq, Debug)]
pub enum IpAddr {
    V4([u8; 4]),
    V6([u16; 8]),
}

/// An IP address as a sequence of numbers.
#[verifier::ext_equal]
pub enum IpView {
    V4(Seq<u8>),
    V6(Seq<u16>),
}

impl View for IpAddr {
    type V = IpView;

    open spec fn view(&self) -> IpView {
        match *self {
            IpAddr::V4(octets) => IpView::V4(octets@),
            IpAddr::V6(groups) => IpView::V6(groups@),
        }
    }
}

/// The optional view of an address.
pub open spec fn opt_ip(ip: Option<IpAddr>) -> Option<IpView> {
    match ip {
        Some(a) => Some(a@),
        None => None,
    }
}

/// The view of an address has its numbers in their order.
pub proof fn law_ip_view(o: [u8; 4], g: [u16; 8])
    ensures
        IpAddr::V4(o)@ == IpView::V4(seq![o@[0], o@[1], o@[2], o@[3]]),
        IpAddr::V6(g)@ == IpView::V6(
            seq![g@[0], g@[1], g@[2], g@[3], g@[4], g@[5], g@[6], g@[7]],
        ),
        opt_ip(Some(IpAddr::V4(o))) == Some(IpAddr::V4(o)@),
        opt_ip(Some(IpAddr::V6(g))) == Some(IpAddr::V6(g)@),
        opt_ip(None) is None,
{
    assert(o@ =~= seq![o@[0], o@[1], o@[2], o@[3]]);
    assert(g@ =~= seq![g@[0], g@[1], g@[2], g@[3], g@[4], g@[5], g@[6], g@[7]]);
}

/// One number of a dotted address: one to three digits, no needless zero in front, below 256.
pub open spec fn octet_of(s: Seq<char>) -> Option<u8> {
    if 1 <= s.len() <= 3 && is_decimal(s) && (s.len() > 1 ==> s[0] != '0') && decimal_value(s)
        <= 255 {
        Some(decimal_value(s) as u8)
    } else {
        None
    }
}

/// A dotted address: four numbers between points.
pub open spec fn v4_of(s: Seq<char>) -> Option<Seq<u8>> {
    let parts = split(s, '.');
    if parts.len() == 4 && octet_of(parts[0]) is Some && octet_of(parts[1]) is Some && octet_of(
        parts[2],
    ) is Some && octet_of(parts[3]) is Some {
        Some(
            seq![
                octet_of(parts[0])->0,
                octet_of(parts[1])->0,
                octet_of(parts[2])->0,
                octet_of(parts[3])->0,
            ],
        )
    } else {
        None
    }
}

/// The value of a hexadecimal digit.
pub open spec fn hex_char(c: char) -> Option<int> {
    if '0' <= c <= '9' {
        Some(c as int - '0' as int)
    } else if 'a' <= c <= 'f' {
        Some(c as int - 'a' as int + 10)
    } else if 'A' <= c <= 'F' {
        Some(c as int - 'A' as int + 10)
    } else {
        None
    }
}

/// Whether all of `s` are hexadecimal digits.
pub open spec fn is_hex(s: Seq<char>) -> bool {
    forall|i: int| 0 <= i < s.len() ==> hex_char(#[trigger] s[i]) is Some
}

/// The number that hexadecimal digits stand for.
pub open spec fn hex_number(s: Seq<char>) -> int
    decreases s.len(),
{
    if s.len() == 0 {
        0
    } else {
        16 * hex_number(s.drop_last()) + hex_char(s.last())->0
    }
}

/// A group: one to four hexadecimal digits.
pub open spec fn group_of(s: Seq<char>) -> Option<u16> {
    if 1 <= s.len() <= 4 && is_hex(s) {
        Some(hex_number(s) as u16)
    } else {
        None
    }
}

/// The two groups that a dotted address fills.
pub open spec fn v4_groups(o: Seq<u8>) -> Seq<u16> {
    seq![(256 * o[0] + o[1]) as u16, (256 * o[2] + o[3]) as u16]
}

/// The groups that the pieces between colons stand for. The last piece may be a dotted address
/// where those are allowed.
pub open spec fn groups_of(pieces: Seq<Seq<char>>, dotted: bool) -> Option<Seq<u16>>
    decreases pieces.len(),
{
    if pieces.len() == 0 {
        Some(Seq::empty())
    } else {
        match groups_of(pieces.drop_last(), false) {
            Some(init) => match group_of(pieces.last()) {
                Some(g) => Some(init.push(g)),
                None => match v4_of(pieces.last()) {
                    Some(o) => if dotted {
                        Some(init + v4_groups(o))
                    } else {
                        None
                    },
                    None => None,
                },
            },
            None => None,
        }
    }
}

/// The groups of one side of a double colon: none if there is nothing.
pub open spec fn side_groups(s: Seq<char>, dotted: bool) -> Option<Seq<u16>> {
    if s.len() == 0 {
        Some(Seq::empty())
    } else {
        groups_of(split(s, ':'), dotted)
    }
}

/// Where the first double colon from `i` on is, or the length.
pub open spec fn double_colon(s: Seq<char>, i: int) -> int
    decreases s.len() - i,
{
    if i < 0 || i + 1 >= s.len() {
        s.len() as int
    } else if s[i] == ':' && s[i + 1] == ':' {
        i
    } else {
        double_colon(s, i + 1)
    }
}

/// An address of eight groups. One double colon may stand for one or more groups of zero.
pub open spec fn v6_of(s: Seq<char>) -> Option<Seq<u16>> {
    let d = double_colon(s, 0);
    if d == s.len() {
        match groups_of(split(s, ':'), true) {
            Some(g) => if g.len() == 8 {
                Some(g)
            } else {
                None
            },
            None => None,
        }
    } else {
        match (side_groups(s.take(d), false), side_groups(s.skip(d + 2), true)) {
            (Some(head), Some(tail)) => if head.len() + tail.len() <= 7 {
                Some(
                    head + Seq::new((8 - head.len() - tail.len()) as nat, |i: int| 0u16) + tail,
                )
            } else {
                None
            },
            _ => None,
        }
    }
}

/// The address that all of `s` is: dotted, or of eight groups.
pub open spec fn ip_of(s: Seq<char>) -> Option<IpView> {
    match v4_of(s) {
        Some(o) => Some(IpView::V4(o)),
        None => match v6_of(s) {
            Some(g) => Some(IpView::V6(g)),
            None => None,
        },
    }
}

/// How a dotted address is written: its four numbers in decimal, in their order, with points between
/// them.
pub open spec fn v4_text(a: u8, b: u8, c: u8, d: u8) -> Seq<char> {
    decimal_text(a as int).push('.') + (decimal_text(b as int).push('.') + (decimal_text(c as int).push(
        '.',
    ) + decimal_text(d as int)))
}

/// A number of a dotted address reads as itself if it is below 256, and as none otherwise.
proof fn lemma_octet(n: int)
    requires
        0 <= n,
    ensures
        n <= 255 ==> octet_of(decimal_text(n)) == Some(n as u8),
        n > 255 ==> octet_of(decimal_text(n)) is None,
        !decimal_text(n).contains('.'),
{
    lemma_decimal_text(n);
    let t = decimal_text(n);
    if t.contains('.') {
        let i = choose|i: int| 0 <= i < t.len() && t[i] == '.';
        assert('0' <= t[i] <= '9');
    }
}

/// The pieces of a written dotted address.
proof fn lemma_v4_pieces(a: Seq<char>, b: Seq<char>, c: Seq<char>, d: Seq<char>)
    requires
        !a.contains('.'),
        !b.contains('.'),
        !c.contains('.'),
        !d.contains('.'),
    ensures
        split(a.push('.') + (b.push('.') + (c.push('.') + d)), '.') == seq![a, b, c, d],
{
    law_split(a, b.push('.') + (c.push('.') + d), '.');
    law_split(b, c.push('.') + d, '.');
    law_split(c, d, '.');
    law_split(d, Seq::empty(), '.');
    assert(seq![a] + (seq![b] + (seq![c] + seq![d])) =~= seq![a, b, c, d]);
}

/// A dotted address reads as the four numbers that it is written with, in their order.
pub proof fn law_v4(a: u8, b: u8, c: u8, d: u8)
    ensures
        ip_of(v4_text(a, b, c, d)) == Some(IpView::V4(seq![a, b, c, d])),
{
    lemma_v4(a, b, c, d);
}

proof fn lemma_v4(a: u8, b: u8, c: u8, d: u8)
    ensures
        v4_of(v4_text(a, b, c, d)) == Some(seq![a, b, c, d]),
{
    lemma_octet(a as int);
    lemma_octet(b as int);
    lemma_octet(c as int);
    lemma_octet(d as int);
    lemma_v4_pieces(
        decimal_text(a as int),
        decimal_text(b as int),
        decimal_text(c as int),
        decimal_text(d as int),
    );
}

/// Only the text that an address is written with reads as that dotted address.
pub proof fn law_v4_is_written_so(s: Seq<char>, o: Seq<u8>)
    requires
        ip_of(s) == Some(IpView::V4(o)),
    ensures
        o.len() == 4,
        s == v4_text(o[0], o[1], o[2], o[3]),
{
    let p = split(s, '.');
    lemma_decimal_is_unique(p[0]);
    lemma_decimal_is_unique(p[1]);
    lemma_decimal_is_unique(p[2]);
    lemma_decimal_is_unique(p[3]);
    law_split_joins(s, '.');
    reveal_with_fuel(joined, 4);
    assert(p.skip(1)[0] == p[1] && p.skip(1).skip(1)[0] == p[2] && p.skip(1).skip(1).skip(1)[0]
        == p[3]);
    assert(joined(p, '.') =~= p[0].push('.') + (p[1].push('.') + (p[2].push('.') + p[3])));
}

/// The hexadecimal digits are those of ASCII, in either case, in the order of their values.
pub proof fn law_hex_char(c: char)
    ensures
        '0' <= c <= '9' ==> hex_char(c) == Some(c as int - 48),
        'a' <= c <= 'f' ==> hex_char(c) == Some(c as int - 87),
        'A' <= c <= 'F' ==> hex_char(c) == Some(c as int - 55),
        hex_char(c) is Some <==> '0' <= c <= '9' || 'a' <= c <= 'f' || 'A' <= c <= 'F',
{
}

/// A group is one to four hexadecimal digits, the last of which counts once, the one before it sixteen
/// times, and so on.
pub proof fn law_group(s: Seq<char>)
    requires
        forall|i: int| 0 <= i < s.len() ==> hex_char(#[trigger] s[i]) is Some,
    ensures
        s.len() == 1 ==> group_of(s) == Some(hex_char(s[0])->0 as u16),
        s.len() == 2 ==> group_of(s) == Some((16 * hex_char(s[0])->0 + hex_char(s[1])->0) as u16),
        s.len() == 3 ==> group_of(s) == Some(
            (256 * hex_char(s[0])->0 + 16 * hex_char(s[1])->0 + hex_char(s[2])->0) as u16,
        ),
        s.len() == 4 ==> group_of(s) == Some(
            (4096 * hex_char(s[0])->0 + 256 * hex_char(s[1])->0 + 16 * hex_char(s[2])->0 + hex_char(
                s[3],
            )->0) as u16,
        ),
        s.len() == 0 || s.len() > 4 ==> group_of(s) is None,
{
    reveal_with_fuel(hex_number, 5);
}

/// Nothing else than one to four hexadecimal digits is a group.
pub proof fn law_no_group(s: Seq<char>, i: int)
    ensures
        group_of(s) is Some ==> 1 <= s.len() <= 4,
        0 <= i < s.len() && hex_char(s[i]) is None ==> group_of(s) is None,
{
}

/// What a group is written with: neither points nor colons, and not nothing.
proof fn lemma_group_text(s: Seq<char>)
    requires
        group_of(s) is Some,
    ensures
        s.len() > 0,
        !s.contains(':'),
        !s.contains('.'),
{
    if s.contains(':') {
        let i = choose|i: int| 0 <= i < s.len() && s[i] == ':';
        assert(hex_char(s[i]) is Some);
    }
    if s.contains('.') {
        let i = choose|i: int| 0 <= i < s.len() && s[i] == '.';
        assert(hex_char(s[i]) is Some);
    }
}

/// Whether the texts are those of the groups.
pub open spec fn are_groups(pieces: Seq<Seq<char>>, groups: Seq<u16>) -> bool {
    &&& pieces.len() == groups.len()
    &&& forall|i: int| 0 <= i < pieces.len() ==> group_of(#[trigger] pieces[i]) == Some(groups[i])
}

/// Groups read as they are written.
proof fn lemma_groups(pieces: Seq<Seq<char>>, groups: Seq<u16>, dotted: bool)
    requires
        are_groups(pieces, groups),
    ensures
        groups_of(pieces, dotted) == Some(groups),
    decreases pieces.len(),
{
    if pieces.len() > 0 {
        let init = pieces.drop_last();
        assert forall|i: int| 0 <= i < init.len() implies group_of(#[trigger] init[i]) == Some(
            groups.drop_last()[i],
        ) by {
            assert(init[i] == pieces[i]);
        }
        lemma_groups(init, groups.drop_last(), false);
        assert(group_of(pieces[pieces.len() - 1]) == Some(groups[groups.len() - 1]));
        assert(groups.drop_last().push(groups.last()) =~= groups);
    } else {
        assert(groups =~= Seq::empty());
    }
}

/// The two groups of a dotted address.
pub open spec fn dotted_groups(a: u8, b: u8, c: u8, d: u8) -> Seq<u16> {
    seq![(256 * a + b) as u16, (256 * c + d) as u16]
}

/// Groups with a dotted address after them read as they are written.
proof fn lemma_groups_then_dotted(pieces: Seq<Seq<char>>, groups: Seq<u16>, a: u8, b: u8, c: u8, d: u8)
    requires
        are_groups(pieces, groups),
    ensures
        groups_of(pieces.push(v4_text(a, b, c, d)), true) == Some(
            groups + dotted_groups(a, b, c, d),
        ),
{
    let t = v4_text(a, b, c, d);
    let all = pieces.push(t);
    lemma_groups(pieces, groups, false);
    lemma_v4(a, b, c, d);
    assert(all.drop_last() =~= pieces);
    assert(group_of(t) is None) by {
        if group_of(t) is Some {
            lemma_group_text(t);
            assert(t[decimal_text(a as int).len() as int] == '.');
        }
    }
    assert(groups + v4_groups(seq![a, b, c, d]) =~= groups + dotted_groups(a, b, c, d));
}

/// Whether a text has no double colon, and no colon at either end.
spec fn is_tight(s: Seq<char>) -> bool {
    &&& forall|i: int| 0 <= i < s.len() - 1 ==> !(#[trigger] s[i] == ':' && s[i + 1] == ':')
    &&& s.len() > 0 ==> s[0] != ':' && s.last() != ':'
}

/// Joined pieces without colons have no double colon.
proof fn lemma_tight(pieces: Seq<Seq<char>>)
    requires
        forall|i: int|
            0 <= i < pieces.len() ==> (#[trigger] pieces[i]).len() > 0 && !pieces[i].contains(':'),
    ensures
        is_tight(joined(pieces, ':')),
        pieces.len() > 0 ==> joined(pieces, ':').len() > 0,
    decreases pieces.len(),
{
    if pieces.len() > 0 {
        let first = pieces[0];
        assert(first.len() > 0 && !first.contains(':'));
        assert forall|i: int| 0 <= i < first.len() implies first[i] != ':' by {
            if first[i] == ':' {
                assert(first.contains(':'));
            }
        }
        if pieces.len() > 1 {
            let rest = pieces.skip(1);
            assert forall|i: int| 0 <= i < rest.len() implies (#[trigger] rest[i]).len() > 0
                && !rest[i].contains(':') by {
                assert(rest[i] == pieces[i + 1]);
            }
            lemma_tight(rest);
            let r = joined(rest, ':');
            let s = first.push(':') + r;
            assert(s == joined(pieces, ':'));
            assert forall|i: int| 0 <= i < s.len() - 1 implies !(#[trigger] s[i] == ':' && s[i + 1]
                == ':') by {
                if i > first.len() {
                    assert(s[i] == r[i - first.len() - 1]);
                    assert(s[i + 1] == r[i - first.len()]);
                    assert(!(r[i - first.len() - 1] == ':' && r[i - first.len() - 1 + 1] == ':'));
                } else if i == first.len() {
                    assert(s[i + 1] == r[0]);
                }
            }
            assert(s[0] == first[0]);
            assert(s.last() == r.last());
        }
    }
}

/// Where there is no double colon before `d`, and one at `d` or the end there, the search ends at `d`.
proof fn lemma_double_colon(s: Seq<char>, i: int, d: int)
    requires
        0 <= i <= d <= s.len(),
        forall|k: int| i <= k < d && k + 1 < s.len() ==> !(#[trigger] s[k] == ':' && s[k + 1] == ':'),
        d < s.len() ==> d + 1 < s.len() && s[d] == ':' && s[d + 1] == ':',
    ensures
        double_colon(s, i) == d,
    decreases d - i,
{
    if i < d && i + 1 < s.len() {
        assert(!(s[i] == ':' && s[i + 1] == ':'));
        lemma_double_colon(s, i + 1, d);
    }
}

/// A text with a colon before its first point, or without a point, is no dotted address.
proof fn lemma_not_v4(x: Seq<char>, rest: Seq<char>)
    requires
        x.contains(':'),
        !x.contains('.'),
        rest.len() > 0 ==> rest[0] == '.',
    ensures
        v4_of(x + rest) is None,
{
    let s = x + rest;
    if rest.len() > 0 {
        let b = rest.skip(1);
        assert(s =~= x.push('.') + b);
        law_split(x, b, '.');
    } else {
        assert(s =~= x);
        law_split(x, Seq::empty(), '.');
    }
    assert(split(s, '.')[0] == x);
    let i = choose|i: int| 0 <= i < x.len() && x[i] == ':';
    assert(!('0' <= x[i] <= '9'));
}

/// No point is in the joined texts of groups.
proof fn lemma_no_point(pieces: Seq<Seq<char>>, groups: Seq<u16>)
    requires
        are_groups(pieces, groups),
    ensures
        !joined(pieces, ':').contains('.'),
        forall|i: int|
            0 <= i < pieces.len() ==> (#[trigger] pieces[i]).len() > 0 && !pieces[i].contains(':'),
        pieces.len() > 1 ==> joined(pieces, ':').contains(':'),
    decreases pieces.len(),
{
    assert forall|i: int| 0 <= i < pieces.len() implies (#[trigger] pieces[i]).len() > 0
        && !pieces[i].contains(':') by {
        lemma_group_text(pieces[i]);
    }
    if pieces.len() > 0 {
        lemma_group_text(pieces[0]);
        if pieces.len() > 1 {
            let rest = pieces.skip(1);
            assert forall|i: int| 0 <= i < rest.len() implies group_of(#[trigger] rest[i]) == Some(
                groups.skip(1)[i],
            ) by {
                assert(rest[i] == pieces[i + 1]);
            }
            lemma_no_point(rest, groups.skip(1));
            let r = joined(rest, ':');
            let s = pieces[0].push(':') + r;
            assert(s[pieces[0].len() as int] == ':');
            if s.contains('.') {
                let i = choose|i: int| 0 <= i < s.len() && s[i] == '.';
                if i < pieces[0].len() {
                    assert(pieces[0][i] == '.');
                } else if i > pieces[0].len() {
                    assert(r[i - pieces[0].len() - 1] == '.');
                }
            }
        }
    }
}

/// Eight groups with colons between them read as the address that they are, in their order.
pub proof fn law_v6(pieces: Seq<Seq<char>>, groups: Seq<u16>)
    requires
        are_groups(pieces, groups),
        groups.len() == 8,
    ensures
        ip_of(joined(pieces, ':')) == Some(IpView::V6(groups)),
{
    let s = joined(pieces, ':');
    lemma_no_point(pieces, groups);
    lemma_tight(pieces);
    lemma_double_colon(s, 0, s.len() as int);
    assert(s + Seq::<char>::empty() =~= s);
    lemma_not_v4(s, Seq::empty());
    law_joined_splits(pieces, ':');
    lemma_groups(pieces, groups, true);
}

/// A piece between colons that is no group makes it no address, unless it is the last one and a dotted
/// address.
pub proof fn law_v6_bad_piece(pieces: Seq<Seq<char>>, i: int)
    requires
        forall|k: int|
            0 <= k < pieces.len() ==> (#[trigger] pieces[k]).len() > 0 && !pieces[k].contains(':'),
        0 <= i < pieces.len(),
        group_of(pieces[i]) is None,
        i < pieces.len() - 1 || v4_of(pieces[i]) is None,
    ensures
        v6_of(joined(pieces, ':')) is None,
{
    let s = joined(pieces, ':');
    lemma_tight(pieces);
    lemma_double_colon(s, 0, s.len() as int);
    law_joined_splits(pieces, ':');
    lemma_bad_piece(pieces, i, true);
}

proof fn lemma_bad_piece(pieces: Seq<Seq<char>>, i: int, dotted: bool)
    requires
        0 <= i < pieces.len(),
        group_of(pieces[i]) is None,
        i < pieces.len() - 1 || v4_of(pieces[i]) is None || !dotted,
    ensures
        groups_of(pieces, dotted) is None,
    decreases pieces.len(),
{
    if i < pieces.len() - 1 {
        assert(pieces.drop_last()[i] == pieces[i]);
        lemma_bad_piece(pieces.drop_last(), i, false);
    } else {
        assert(pieces.last() == pieces[i]);
    }
}

/// A double colon between groups stands for as many groups of zero as are missing, one at least.
pub proof fn law_v6_double_colon(
    head: Seq<Seq<char>>,
    head_groups: Seq<u16>,
    tail: Seq<Seq<char>>,
    tail_groups: Seq<u16>,
    groups: Seq<u16>,
)
    requires
        are_groups(head, head_groups),
        are_groups(tail, tail_groups),
        head.len() + tail.len() <= 7,
        groups.len() == 8,
        forall|i: int| 0 <= i < head.len() ==> #[trigger] groups[i] == head_groups[i],
        forall|i: int| head.len() <= i < 8 - tail.len() ==> #[trigger] groups[i] == 0,
        forall|i: int|
            8 - tail.len() <= i < 8 ==> #[trigger] groups[i] == tail_groups[i - (8 - tail.len())],
    ensures
        ip_of(joined(head, ':') + seq![':', ':'] + joined(tail, ':')) == Some(IpView::V6(groups)),
{
    let h = joined(head, ':');
    let t = joined(tail, ':');
    let s = h + seq![':', ':'] + t;
    let d = h.len() as int;
    lemma_no_point(head, head_groups);
    lemma_no_point(tail, tail_groups);
    lemma_tight(head);
    lemma_colons_after(h, t, s);
    assert(s[d] == ':');
    assert(!s.contains('.')) by {
        if s.contains('.') {
            let i = choose|i: int| 0 <= i < s.len() && s[i] == '.';
            if i < d {
                assert(h[i] == '.');
            } else if i >= d + 2 {
                assert(t[i - d - 2] == '.');
            }
        }
    }
    assert(s + Seq::<char>::empty() =~= s);
    lemma_not_v4(s, Seq::empty());
    lemma_side(head, head_groups, false);
    lemma_side(tail, tail_groups, true);
    assert(groups =~= head_groups + Seq::new(
        (8 - head_groups.len() - tail_groups.len()) as nat,
        |i: int| 0u16,
    ) + tail_groups);
}

/// Where the double colon is after a text that has none.
proof fn lemma_colons_after(h: Seq<char>, t: Seq<char>, s: Seq<char>)
    requires
        is_tight(h),
        s == h + seq![':', ':'] + t,
    ensures
        double_colon(s, 0) == h.len(),
        s.take(h.len() as int) == h,
        s.skip(h.len() as int + 2) == t,
        double_colon(s, 0) < s.len(),
{
    let d = h.len() as int;
    assert(s[d] == ':' && s[d + 1] == ':');
    assert forall|k: int| 0 <= k < d && k + 1 < s.len() implies !(#[trigger] s[k] == ':' && s[k + 1]
        == ':') by {
        assert(s[k] == h[k]);
        if k < d - 1 {
            assert(s[k + 1] == h[k + 1]);
            assert(!(h[k] == ':' && h[k + 1] == ':'));
        }
    }
    lemma_double_colon(s, 0, d);
    assert(s.take(d) =~= h);
    assert(s.skip(d + 2) =~= t);
}

/// One side of a double colon reads as it is written.
proof fn lemma_side(pieces: Seq<Seq<char>>, groups: Seq<u16>, dotted: bool)
    requires
        are_groups(pieces, groups),
    ensures
        side_groups(joined(pieces, ':'), dotted) == Some(groups),
{
    lemma_no_point(pieces, groups);
    lemma_tight(pieces);
    lemma_groups(pieces, groups, dotted);
    if pieces.len() > 0 {
        law_joined_splits(pieces, ':');
    } else {
        assert(groups =~= Seq::empty());
    }
}

/// Another number of groups than eight is no address, and neither are eight or more with a double
/// colon.
pub proof fn law_v6_wrong_number(
    head: Seq<Seq<char>>,
    head_groups: Seq<u16>,
    tail: Seq<Seq<char>>,
    tail_groups: Seq<u16>,
)
    requires
        are_groups(head, head_groups),
        are_groups(tail, tail_groups),
    ensures
        0 < head.len() && head.len() != 8 ==> v6_of(joined(head, ':')) is None,
        head.len() + tail.len() >= 8 ==> v6_of(
            joined(head, ':') + seq![':', ':'] + joined(tail, ':'),
        ) is None,
{
    let h = joined(head, ':');
    let t = joined(tail, ':');
    let s = h + seq![':', ':'] + t;
    lemma_no_point(head, head_groups);
    lemma_tight(head);
    lemma_double_colon(h, 0, h.len() as int);
    if head.len() > 0 {
        law_joined_splits(head, ':');
        lemma_groups(head, head_groups, true);
    }
    lemma_colons_after(h, t, s);
    lemma_side(head, head_groups, false);
    lemma_side(tail, tail_groups, true);
}

/// The last two groups may be written as a dotted address, whose numbers fill them in their order: here
/// after a double colon, with any groups before and after it.
pub proof fn law_v6_dotted(
    head: Seq<Seq<char>>,
    head_groups: Seq<u16>,
    tail: Seq<Seq<char>>,
    tail_groups: Seq<u16>,
    a: u8,
    b: u8,
    c: u8,
    d: u8,
    groups: Seq<u16>,
)
    requires
        are_groups(head, head_groups),
        are_groups(tail, tail_groups),
        head.len() + tail.len() <= 5,
        groups.len() == 8,
        forall|i: int| 0 <= i < head.len() ==> #[trigger] groups[i] == head_groups[i],
        forall|i: int| head.len() <= i < 6 - tail.len() ==> #[trigger] groups[i] == 0,
        forall|i: int|
            6 - tail.len() <= i < 6 ==> #[trigger] groups[i] == tail_groups[i - (6 - tail.len())],
        groups[6] == 256 * a + b,
        groups[7] == 256 * c + d,
    ensures
        ip_of(
            joined(head, ':') + seq![':', ':'] + joined(tail.push(v4_text(a, b, c, d)), ':'),
        ) == Some(IpView::V6(groups)),
{
    let pieces = tail.push(v4_text(a, b, c, d));
    let h = joined(head, ':');
    let t = joined(pieces, ':');
    let s = h + seq![':', ':'] + t;
    lemma_no_point(head, head_groups);
    lemma_tight(head);
    lemma_colons_after(h, t, s);
    lemma_dotted_pieces(tail, tail_groups, a, b, c, d);
    lemma_groups_then_dotted(tail, tail_groups, a, b, c, d);
    lemma_side(head, head_groups, false);
    lemma_dotted_rest(tail, tail_groups, a, b, c, d);
    let (lead, rest) = dotted_parts(tail, a, b, c, d);
    let x = h + seq![':', ':'] + lead;
    assert(s =~= x + rest);
    assert(x[h.len() as int] == ':');
    assert(!x.contains('.')) by {
        if x.contains('.') {
            let i = choose|i: int| 0 <= i < x.len() && x[i] == '.';
            if i < h.len() {
                assert(h[i] == '.');
            } else if i >= h.len() + 2 {
                assert(lead[i - h.len() - 2] == '.');
            }
        }
    }
    lemma_not_v4(x, rest);
    let got = tail_groups + dotted_groups(a, b, c, d);
    assert(groups =~= head_groups + Seq::new(
        (8 - head_groups.len() - got.len()) as nat,
        |i: int| 0u16,
    ) + got);
}

/// Six groups and a dotted address, with colons between them, are an address.
pub proof fn law_v6_dotted_in_full(pieces: Seq<Seq<char>>, groups: Seq<u16>, a: u8, b: u8, c: u8, d: u8)
    requires
        are_groups(pieces, groups),
        pieces.len() == 6,
    ensures
        ip_of(joined(pieces.push(v4_text(a, b, c, d)), ':')) == Some(
            IpView::V6(groups + seq![(256 * a + b) as u16, (256 * c + d) as u16]),
        ),
{
    let all = pieces.push(v4_text(a, b, c, d));
    let s = joined(all, ':');
    lemma_dotted_pieces(pieces, groups, a, b, c, d);
    lemma_groups_then_dotted(pieces, groups, a, b, c, d);
    lemma_tight(all);
    lemma_double_colon(s, 0, s.len() as int);
    lemma_dotted_rest(pieces, groups, a, b, c, d);
    let (lead, rest) = dotted_parts(pieces, a, b, c, d);
    let h = joined(pieces, ':');
    assert(lead[h.len() as int] == ':');
    lemma_not_v4(lead, rest);
}

/// A dotted address is no part of an address before a double colon.
pub proof fn law_v6_dotted_is_last(
    head: Seq<Seq<char>>,
    head_groups: Seq<u16>,
    a: u8,
    b: u8,
    c: u8,
    d: u8,
    rest: Seq<char>,
)
    requires
        are_groups(head, head_groups),
    ensures
        v6_of(joined(head.push(v4_text(a, b, c, d)), ':') + seq![':', ':'] + rest) is None,
{
    let v = v4_text(a, b, c, d);
    let pieces = head.push(v);
    let h = joined(pieces, ':');
    let s = h + seq![':', ':'] + rest;
    lemma_dotted_pieces(head, head_groups, a, b, c, d);
    lemma_tight(pieces);
    lemma_colons_after(h, rest, s);
    lemma_groups(head, head_groups, false);
    lemma_v4(a, b, c, d);
    assert(pieces.drop_last() =~= head);
    assert(group_of(v) is None) by {
        if group_of(v) is Some {
            lemma_group_text(v);
            assert(v[decimal_text(a as int).len() as int] == '.');
        }
    }
}

/// The pieces of groups and a dotted address have no colons in them.
proof fn lemma_dotted_pieces(pieces: Seq<Seq<char>>, groups: Seq<u16>, a: u8, b: u8, c: u8, d: u8)
    requires
        are_groups(pieces, groups),
    ensures
        forall|i: int|
            0 <= i < pieces.len() + 1 ==> (#[trigger] pieces.push(v4_text(a, b, c, d))[i]).len() > 0
                && !pieces.push(v4_text(a, b, c, d))[i].contains(':'),
        split(joined(pieces.push(v4_text(a, b, c, d)), ':'), ':') == pieces.push(
            v4_text(a, b, c, d),
        ),
        joined(pieces.push(v4_text(a, b, c, d)), ':').len() > 0,
{
    let all = pieces.push(v4_text(a, b, c, d));
    lemma_no_point(pieces, groups);
    lemma_v4_text(a, b, c, d);
    assert forall|i: int| 0 <= i < all.len() implies (#[trigger] all[i]).len() > 0
        && !all[i].contains(':') by {
        if i < pieces.len() {
            assert(all[i] == pieces[i]);
        }
    }
    law_joined_splits(all, ':');
    lemma_tight(all);
}

/// Groups and a dotted address, up to its first point and from there on.
spec fn dotted_parts(pieces: Seq<Seq<char>>, a: u8, b: u8, c: u8, d: u8) -> (Seq<char>, Seq<char>) {
    let first = decimal_text(a as int);
    (
        if pieces.len() > 0 {
            joined(pieces, ':').push(':') + first
        } else {
            first
        },
        v4_text(a, b, c, d).skip(first.len() as int),
    )
}

/// What the two parts are.
proof fn lemma_dotted_rest(pieces: Seq<Seq<char>>, groups: Seq<u16>, a: u8, b: u8, c: u8, d: u8)
    requires
        are_groups(pieces, groups),
    ensures
        ({
            let (lead, rest) = dotted_parts(pieces, a, b, c, d);
            &&& joined(pieces.push(v4_text(a, b, c, d)), ':') == lead + rest
            &&& !lead.contains('.')
            &&& rest.len() > 0
            &&& rest[0] == '.'
        }),
{
    let v = v4_text(a, b, c, d);
    let first = decimal_text(a as int);
    let (lead, rest) = dotted_parts(pieces, a, b, c, d);
    let h = joined(pieces, ':');
    lemma_no_point(pieces, groups);
    lemma_octet(a as int);
    lemma_joined_last(pieces, v);
    assert(v =~= first + rest);
    assert(joined(pieces.push(v), ':') =~= lead + rest);
    if lead.contains('.') {
        let i = choose|i: int| 0 <= i < lead.len() && lead[i] == '.';
        if pieces.len() > 0 {
            if i < h.len() {
                assert(h[i] == '.');
            } else if i > h.len() {
                assert(first[i - h.len() - 1] == '.');
            }
        } else {
            assert(first[i] == '.');
        }
    }
}

/// What a dotted address is written with.
proof fn lemma_v4_text(a: u8, b: u8, c: u8, d: u8)
    ensures
        !v4_text(a, b, c, d).contains(':'),
        v4_text(a, b, c, d).len() > 0,
{
    let v = v4_text(a, b, c, d);
    let p = decimal_text(a as int);
    let q = decimal_text(b as int);
    let r = decimal_text(c as int);
    let t = decimal_text(d as int);
    lemma_decimal_text(a as int);
    lemma_decimal_text(b as int);
    lemma_decimal_text(c as int);
    lemma_decimal_text(d as int);
    if v.contains(':') {
        let i = choose|i: int| 0 <= i < v.len() && v[i] == ':';
        let x = i - p.len() - 1;
        let y = x - q.len() - 1;
        let z = y - r.len() - 1;
        if i < p.len() {
            assert('0' <= p[i] <= '9');
        } else if i == p.len() {
        } else if x < q.len() {
            assert('0' <= q[x] <= '9');
        } else if x == q.len() {
        } else if y < r.len() {
            assert('0' <= r[y] <= '9');
        } else if y == r.len() {
        } else {
            assert('0' <= t[z] <= '9');
        }
    }
}

/// Joining one piece more puts it after the others and a separator.
proof fn lemma_joined_last(pieces: Seq<Seq<char>>, last: Seq<char>)
    ensures
        joined(pieces.push(last), ':') == if pieces.len() > 0 {
            joined(pieces, ':').push(':') + last
        } else {
            last
        },
    decreases pieces.len(),
{
    let all = pieces.push(last);
    if pieces.len() > 0 {
        assert(all.skip(1) =~= pieces.skip(1).push(last));
        assert(all[0] == pieces[0]);
        lemma_joined_last(pieces.skip(1), last);
        assert(joined(all, ':') =~= joined(pieces, ':').push(':') + last);
    }
}

/// An address of groups has eight of them.
pub proof fn law_v6_has_eight_groups(s: Seq<char>, g: Seq<u16>)
    requires
        ip_of(s) == Some(IpView::V6(g)),
    ensures
        g.len() == 8,
{
}

fn parse_octet(s: &str) -> (r: Option<u8>)
    ensures
        r == octet_of(s@),
{
    let v = chars_of(s);
    if v.len() < 1 || v.len() > 3 || (v.len() > 1 && v[0] == '0') {
        return None;
    }
    let mut n: u16 = 0;
    let mut i: usize = 0;
    assert(s@.take(0) =~= Seq::empty());
    while i < v.len()
        invariant
            i <= v.len() <= 3,
            v@ == s@,
            n == decimal_value(s@.take(i as int)),
            i == 0 ==> n == 0,
            i == 1 ==> n <= 9,
            i == 2 ==> n <= 99,
            i == 3 ==> n <= 999,
            forall|j: int| 0 <= j < i ==> '0' <= #[trigger] s@[j] <= '9',
        decreases v.len() - i,
    {
        if v[i] < '0' || v[i] > '9' {
            assert(!('0' <= s@[i as int] <= '9'));
            return None;
        }
        assert(s@.take(i + 1).drop_last() =~= s@.take(i as int));
        n = 10 * n + (v[i] as u16 - 48);
        i += 1;
    }
    assert(s@.take(i as int) =~= s@);
    if n <= 255 {
        Some(n as u8)
    } else {
        None
    }
}

fn parse_v4(s: &str) -> (r: Option<[u8; 4]>)
    ensures
        match r {
            Some(o) => v4_of(s@) == Some(o@),
            None => v4_of(s@) is None,
        },
{
    let parts = split_text(s, '.');
    assert(texts(parts@).len() == parts@.len());
    if parts.len() != 4 {
        return None;
    }
    assert(texts(parts@)[0] == parts@[0]@ && texts(parts@)[1] == parts@[1]@);
    assert(texts(parts@)[2] == parts@[2]@ && texts(parts@)[3] == parts@[3]@);
    match (
        parse_octet(parts[0].as_str()),
        parse_octet(parts[1].as_str()),
        parse_octet(parts[2].as_str()),
        parse_octet(parts[3].as_str()),
    ) {
        (Some(a), Some(b), Some(c), Some(d)) => {
            let o: [u8; 4] = [a, b, c, d];
            assert(o@ =~= seq![a, b, c, d]);
            Some(o)
        },
        _ => None,
    }
}

fn hex_digit(c: char) -> (r: Option<u32>)
    ensures
        match r {
            Some(d) => hex_char(c) == Some(d as int) && d < 16,
            None => hex_char(c) is None,
        },
{
    if '0' <= c && c <= '9' {
        Some(c as u32 - 48)
    } else if 'a' <= c && c <= 'f' {
        Some(c as u32 - 97 + 10)
    } else if 'A' <= c && c <= 'F' {
        Some(c as u32 - 65 + 10)
    } else {
        None
    }
}

fn parse_group(s: &str) -> (r: Option<u16>)
    ensures
        r == group_of(s@),
{
    let v = chars_of(s);
    if v.len() < 1 || v.len() > 4 {
        return None;
    }
    let mut n: u32 = 0;
    let mut i: usize = 0;
    assert(s@.take(0) =~= Seq::empty());
    while i < v.len()
        invariant
            i <= v.len() <= 4,
            v@ == s@,
            n == hex_number(s@.take(i as int)),
            i == 0 ==> n == 0,
            i == 1 ==> n <= 0xf,
            i == 2 ==> n <= 0xff,
            i == 3 ==> n <= 0xfff,
            i == 4 ==> n <= 0xffff,
            forall|j: int| 0 <= j < i ==> hex_char(#[trigger] s@[j]) is Some,
        decreases v.len() - i,
    {
        match hex_digit(v[i]) {
            Some(d) => {
                assert(s@.take(i + 1).drop_last() =~= s@.take(i as int));
                n = 16 * n + d;
            },
            None => {
                assert(hex_char(s@[i as int]) is None);
                return None;
            },
        }
        i += 1;
    }
    assert(s@.take(i as int) =~= s@);
    Some(n as u16)
}

fn parse_groups(pieces: &Vec<String>, dotted: bool) -> (r: Option<Vec<u16>>)
    requires
        pieces.len() >= 1,
    ensures
        match r {
            Some(g) => groups_of(texts(pieces@), dotted) == Some(g@),
            None => groups_of(texts(pieces@), dotted) is None,
        },
{
    let ghost all = texts(pieces@);
    let mut groups: Vec<u16> = Vec::new();
    let mut i: usize = 0;
    assert(all.take(0) =~= Seq::empty());
    while i < pieces.len()
        invariant
            i <= pieces.len(),
            all == texts(pieces@),
            groups_of(all.take(i as int), false) == Some(groups@),
        decreases pieces.len() - i,
    {
        assert(all[i as int] == pieces@[i as int]@);
        assert(all.take(i + 1).drop_last() =~= all.take(i as int));
        match parse_group(pieces[i].as_str()) {
            Some(g) => {
                groups.push(g);
            },
            None => {
                if i + 1 < pieces.len() {
                    proof {
                        lemma_groups_prefix(all, i + 1, dotted);
                    }
                    return None;
                }
                assert(all.take(i + 1) =~= all);
                if !dotted {
                    return None;
                }
                match parse_v4(pieces[i].as_str()) {
                    Some(o) => {
                        let ghost init = groups@;
                        groups.push(256 * (o[0] as u16) + o[1] as u16);
                        groups.push(256 * (o[2] as u16) + o[3] as u16);
                        assert(groups@ =~= init + v4_groups(o@));
                        return Some(groups);
                    },
                    None => {
                        return None;
                    },
                }
            },
        }
        i += 1;
    }
    assert(all.take(i as int) =~= all);
    proof {
        lemma_groups_dotted(all, dotted);
    }
    Some(groups)
}

/// Pieces that are groups throughout are so wherever dotted addresses are allowed.
proof fn lemma_groups_dotted(pieces: Seq<Seq<char>>, dotted: bool)
    requires
        groups_of(pieces, false) is Some,
    ensures
        groups_of(pieces, dotted) == groups_of(pieces, false),
{
}

/// Where a proper front part of the pieces fails, all of them fail.
proof fn lemma_groups_prefix(pieces: Seq<Seq<char>>, k: int, dotted: bool)
    requires
        0 <= k < pieces.len(),
        groups_of(pieces.take(k), false) is None,
    ensures
        groups_of(pieces, dotted) is None,
    decreases pieces.len(),
{
    let init = pieces.drop_last();
    assert(init.take(k) =~= pieces.take(k));
    if k == init.len() {
        assert(init =~= pieces.take(k));
    } else {
        lemma_groups_prefix(init, k, false);
    }
}

fn parse_side(s: &str, dotted: bool) -> (r: Option<Vec<u16>>)
    ensures
        match r {
            Some(g) => side_groups(s@, dotted) == Some(g@),
            None => side_groups(s@, dotted) is None,
        },
{
    if s.is_empty() {
        return Some(Vec::new());
    }
    let pieces = split_text(s, ':');
    proof {
        lemma_split_nonempty(s@, ':');
        assert(texts(pieces@).len() == pieces@.len());
    }
    parse_groups(&pieces, dotted)
}

fn find_double_colon(v: &Vec<char>) -> (r: usize)
    ensures
        r == double_colon(v@, 0),
        r == v.len() || r + 2 <= v.len(),
{
    let mut i: usize = 0;
    while v.len() >= 2 && i < v.len() - 1
        invariant
            v.len() >= 2 ==> i <= v.len() - 1,
            double_colon(v@, 0) == double_colon(v@, i as int),
        decreases v.len() - i,
    {
        if v[i] == ':' && v[i + 1] == ':' {
            return i;
        }
        i += 1;
    }
    v.len()
}

fn parse_v6(s: &str) -> (r: Option<[u16; 8]>)
    ensures
        match r {
            Some(g) => v6_of(s@) == Some(g@),
            None => v6_of(s@) is None,
        },
{
    let v = chars_of(s);
    let d = find_double_colon(&v);
    if d == v.len() {
        let pieces = split_text(s, ':');
        proof {
            lemma_split_nonempty(s@, ':');
            assert(texts(pieces@).len() == pieces@.len());
        }
        match parse_groups(&pieces, true) {
            Some(g) => {
                if g.len() != 8 {
                    return None;
                }
                let out: [u16; 8] = [g[0], g[1], g[2], g[3], g[4], g[5], g[6], g[7]];
                assert(out@ =~= g@);
                Some(out)
            },
            None => None,
        }
    } else {
        assert(s@.take(d as int) =~= s@.subrange(0, d as int));
        assert(s@.skip(d + 2) =~= s@.subrange(d + 2, s@.len() as int));
        let head = parse_side(s.substring_char(0, d), false);
        let tail = parse_side(s.substring_char(d + 2, v.len()), true);
        match (head, tail) {
            (Some(h), Some(t)) => {
                if h.len() > 7 || t.len() > 7 - h.len() {
                    return None;
                }
                let ghost want = h@ + Seq::new(
                    (8 - h@.len() - t@.len()) as nat,
                    |i: int| 0u16,
                ) + t@;
                let mut g: Vec<u16> = Vec::new();
                let mut i: usize = 0;
                while i < 8
                    invariant
                        i <= 8,
                        h@.len() + t@.len() <= 7,
                        want == h@ + Seq::new((8 - h@.len() - t@.len()) as nat, |i: int| 0u16)
                            + t@,
                        g@ == want.take(i as int),
                    decreases 8 - i,
                {
                    let x: u16 = if i < h.len() {
                        h[i]
                    } else if i >= 8 - t.len() {
                        t[i - (8 - t.len())]
                    } else {
                        0
                    };
                    assert(x == want[i as int]);
                    g.push(x);
                    assert(g@ =~= want.take(i + 1));
                    i += 1;
                }
                let out: [u16; 8] = [g[0], g[1], g[2], g[3], g[4], g[5], g[6], g[7]];
                assert(out@ =~= want);
                Some(out)
            },
            _ => None,
        }
    }
}

impl IpAddr {
    /// Reads a whole text as an address.
    pub fn parse(s: &str) -> (r: Option<IpAddr>)
        ensures
            opt_ip(r) == ip_of(s@),
    {
        match parse_v4(s) {
            Some(o) => Some(IpAddr::V4(o)),
            None => match parse_v6(s) {
                Some(g) => Some(IpAddr::V6(g)),
                None => None,
            },
        }
    }
}

} // verus!
