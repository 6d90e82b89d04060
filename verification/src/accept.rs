//! The media types that a client accepts, and the one it prefers.
use vstd::prelude::*;
use crate::media_type::{any_type, is_space, is_token, lemma_ends, lemma_read_type};
use crate::media_type::{is_name, lemma_plain_type_reads, lemma_space_end, lemma_type_reads};
use crate::media_type::{media_type_at, ParamView};
use crate::media_type::{parse_media_type_at, rendered, same_type, skip_space, space_end};
use crate::media_type::{specificity_of, writable, MediaType, MediaTypeView};
use crate::text::{chars_of, eq_text, law_same_text};

verus! {

/// A media type with the weight, in thousandths, that the client gave it.
pub struct QMediaType {
    pub media_type: MediaType,
    pub weight: Option<u16>,
}

/// A weighted media type as texts.
#[verifier::ext_equal]
pub struct QMediaTypeView {
    pub media_type: MediaTypeView,
    pub weight: Option<u16>,
}

impl View for QMediaType {
    type V = QMediaTypeView;

    open spec fn view(&self) -> QMediaTypeView {
        QMediaTypeView { media_type: self.media_type@, weight: self.weight }
    }
}

/// What a client accepts, in its order.
pub struct Accept {
    pub types: Vec<QMediaType>,
}

/// The views of weighted media types.
pub open spec fn q_views(v: Seq<QMediaType>) -> Seq<QMediaTypeView> {
    Seq::new(v.len(), |i: int| v[i]@)
}

impl View for Accept {
    type V = Seq<QMediaTypeView>;

    open spec fn view(&self) -> Seq<QMediaTypeView> {
        q_views(self.types@)
    }
}

impl Clone for Accept {
    fn clone(&self) -> (r: Accept)
        ensures
            r@ == self@,
    {
        let mut types: Vec<QMediaType> = Vec::new();
        let mut i: usize = 0;
        while i < self.types.len()
            invariant
                i <= self.types.len(),
                types@.len() == i,
                forall|j: int| 0 <= j < i ==> #[trigger] types@[j]@ == self.types@[j]@,
            decreases self.types.len() - i,
        {
            types.push(
                QMediaType {
                    media_type: self.types[i].media_type.clone(),
                    weight: self.types[i].weight,
                },
            );
            i += 1;
        }
        assert(q_views(types@) =~= q_views(self.types@));
        Accept { types }
    }
}

/// The digit of `s` at `i`, and 0 past its end.
pub open spec fn digit_at(s: Seq<char>, i: int) -> int {
    if 0 <= i < s.len() {
        s[i] as int - '0' as int
    } else {
        0
    }
}

/// A weight in thousandths: `0` or `1`, a point, and up to three digits; at most 1000.
pub open spec fn weight_of(s: Seq<char>) -> Option<u16> {
    let n = 1000 * digit_at(s, 0) + 100 * digit_at(s, 2) + 10 * digit_at(s, 3) + digit_at(s, 4);
    if 1 <= s.len() <= 5 && (s[0] == '0' || s[0] == '1') && (s.len() > 1 ==> s[1] == '.') && (
    forall|i: int| 2 <= i < s.len() ==> '0' <= #[trigger] s[i] <= '9') && n <= 1000 {
        Some(n as u16)
    } else {
        None
    }
}

/// The weighted media type that a media type stands for: its first parameter, if that is `q` and
/// at most five characters long, is the weight, and has to be one.
pub open spec fn weighted(m: MediaTypeView) -> Option<QMediaTypeView> {
    if m.params.len() > 0 && m.params[0].name == seq!['q'] && m.params[0].value.len() <= 5 {
        match weight_of(m.params[0].value) {
            Some(w) => Some(QMediaTypeView { media_type: m, weight: Some(w) }),
            None => None,
        }
    } else {
        Some(QMediaTypeView { media_type: m, weight: None })
    }
}

/// The weighted media types from `i` on, separated by commas, up to the end of the text.
pub open spec fn accept_at(s: Seq<char>, i: int) -> Option<Seq<QMediaTypeView>>
    decreases s.len() - i,
{
    match media_type_at(s, space_end(s, i)) {
        Some((m, e)) => match weighted(m) {
            Some(q) => {
                let j = space_end(s, e);
                if j == s.len() {
                    Some(seq![q])
                } else if 0 <= i <= j < s.len() && s[j] == ',' {
                    match accept_at(s, j + 1) {
                        Some(rest) => Some(seq![q] + rest),
                        None => None,
                    }
                } else {
                    None
                }
            },
            None => None,
        },
        None => None,
    }
}

/// The list that all of `s` is.
pub open spec fn accept_of(s: Seq<char>) -> Option<Seq<QMediaTypeView>> {
    accept_at(s, 0)
}

/// Whether `b`, which comes later, is preferred to `a`.
pub open spec fn preferred_to(b: QMediaTypeView, a: QMediaTypeView) -> bool {
    let weight_a: int = match a.weight {
        Some(w) => w as int,
        None => 1000,
    };
    let weight_b: int = match b.weight {
        Some(w) => w as int,
        None => 0,
    };
    // One without a weight goes before one with a weight.
    ||| b.weight is None && a.weight is Some
    // A greater weight goes before a smaller one.
    ||| weight_b > weight_a
    // With equal weights, the more specific one goes first.
    ||| a.weight == b.weight && specificity_of(a.media_type) < specificity_of(b.media_type)
    // With all that equal, the same type with more parameters goes first.
    ||| a.weight == b.weight && same_type(a.media_type, b.media_type) && a.media_type.params.len()
        < b.media_type.params.len()
}

/// The preferred one of a list that is not empty.
pub open spec fn preferred_of(list: Seq<QMediaTypeView>) -> QMediaTypeView
    decreases list.len(),
{
    if list.len() <= 1 {
        list[0]
    } else {
        let p = preferred_of(list.drop_last());
        if preferred_to(list.last(), p) {
            list.last()
        } else {
            p
        }
    }
}

/// The preferred media type of a list: `*/*` if the list is empty.
pub open spec fn preferred_type(list: Seq<QMediaTypeView>) -> MediaTypeView {
    if list.len() == 0 {
        any_type()
    } else {
        preferred_of(list).media_type
    }
}

/// What is preferred is one of the list.
pub proof fn law_preferred_is_listed(list: Seq<QMediaTypeView>)
    requires
        list.len() > 0,
    ensures
        list.contains(preferred_of(list)),
    decreases list.len(),
{
    if list.len() > 1 {
        law_preferred_is_listed(list.drop_last());
        let p = preferred_of(list.drop_last());
        let i = choose|i: int| 0 <= i < list.drop_last().len() && list.drop_last()[i] == p;
        assert(list[i] == p);
        assert(list[list.len() - 1] == list.last());
    } else {
        assert(list[0] == preferred_of(list));
    }
}

/// A media type without a weight is preferred to every one with a weight: if the list has one,
/// what is preferred has none.
pub proof fn law_unweighted_is_preferred(list: Seq<QMediaTypeView>)
    requires
        list.len() > 0,
        forall|i: int| 0 <= i < list.len() ==> ((#[trigger] list[i]).weight matches Some(w) ==> w <= 1000),
        exists|i: int| 0 <= i < list.len() && (#[trigger] list[i]).weight is None,
    ensures
        preferred_of(list).weight is None,
    decreases list.len(),
{
    if list.len() > 1 {
        let init = list.drop_last();
        assert forall|i: int| 0 <= i < init.len() implies ((#[trigger] init[i]).weight matches Some(w)
            ==> w <= 1000) by {
            assert(init[i] == list[i]);
        }
        assert(list[list.len() - 1] == list.last());
        if exists|i: int| 0 <= i < init.len() && (#[trigger] init[i]).weight is None {
            law_unweighted_is_preferred(init);
        } else {
            let k = choose|i: int| 0 <= i < list.len() && (#[trigger] list[i]).weight is None;
            if k < init.len() {
                assert(init[k] == list[k]);
            }
            law_preferred_is_listed(init);
            let p = preferred_of(init);
            let j = choose|j: int| 0 <= j < init.len() && init[j] == p;
            assert(init[j].weight is Some);
        }
    }
}

/// Where all have weights, what is preferred has the greatest.
pub proof fn law_preferred_has_the_greatest_weight(list: Seq<QMediaTypeView>, i: int)
    requires
        forall|k: int| 0 <= k < list.len() ==> (#[trigger] list[k]).weight is Some,
        0 <= i < list.len(),
    ensures
        preferred_of(list).weight is Some,
        list[i].weight->0 <= preferred_of(list).weight->0,
    decreases list.len(),
{
    if list.len() > 1 {
        let init = list.drop_last();
        assert forall|k: int| 0 <= k < init.len() implies (#[trigger] init[k]).weight is Some by {
            assert(init[k] == list[k]);
        }
        assert(list[list.len() - 1] == list.last());
        if i < init.len() {
            assert(init[i] == list[i]);
            law_preferred_has_the_greatest_weight(init, i);
        } else {
            law_preferred_has_the_greatest_weight(init, 0);
        }
    }
}

/// The view of a list has its media types and their weights, in their order.
pub proof fn law_accept_view(a: Accept, i: int)
    requires
        0 <= i < a.types@.len(),
    ensures
        a@.len() == a.types@.len(),
        a@[i].media_type == a.types@[i].media_type@,
        a@[i].weight == a.types@[i].weight,
{
}

/// Nothing is preferred to what stands alone, and without a list it is `*/*`.
pub proof fn law_preferred_of_one(q: QMediaTypeView)
    ensures
        preferred_type(seq![q]) == q.media_type,
        preferred_type(Seq::empty()) == any_type(),
{
}

/// Where all have the same weight, or none has one, what is preferred is as specific as any.
pub proof fn law_preferred_is_specific(list: Seq<QMediaTypeView>, i: int)
    requires
        0 <= i < list.len(),
        forall|k: int| 0 <= k < list.len() ==> (#[trigger] list[k]).weight == list[0].weight,
        list[0].weight matches Some(w) ==> w <= 1000,
    ensures
        preferred_of(list).weight == list[0].weight,
        specificity_of(list[i].media_type) <= specificity_of(preferred_of(list).media_type),
    decreases list.len(),
{
    if list.len() > 1 {
        let init = list.drop_last();
        assert forall|k: int| 0 <= k < init.len() implies (#[trigger] init[k]).weight
            == init[0].weight by {
            assert(init[k] == list[k]);
        }
        assert(list[list.len() - 1] == list.last());
        let n = if i < init.len() {
            i
        } else {
            0
        };
        law_preferred_is_specific(init, n);
        assert(init[n] == list[n]);
        if same_type(preferred_of(init).media_type, list.last().media_type) {
            lemma_same_specificity(preferred_of(init).media_type, list.last().media_type);
        }
    }
}

/// Media types that are the same are equally specific.
proof fn lemma_same_specificity(a: MediaTypeView, b: MediaTypeView)
    requires
        same_type(a, b),
    ensures
        specificity_of(a) == specificity_of(b),
{
    let star = seq!['*'];
    law_same_text(a.top, b.top);
    law_same_text(a.sub, b.sub);
    assert(star[0] == '*');
    if a.top == star {
        assert(a.top[0] == star[0]);
        assert(b.top =~= star);
    }
    if b.top == star {
        assert(a.top[0] == a.top[0]);
        assert(a.top =~= star);
    }
    if a.sub == star {
        assert(a.sub[0] == star[0]);
        assert(b.sub =~= star);
    }
    if b.sub == star {
        assert(a.sub[0] == a.sub[0]);
        assert(a.sub =~= star);
    }
}

/// Among those that are alike in weight, in how specific they are and in the number of their
/// parameters, the first one is preferred.
pub proof fn law_first_of_alike_is_preferred(list: Seq<QMediaTypeView>)
    requires
        list.len() > 0,
        list[0].weight matches Some(w) ==> w <= 1000,
        forall|k: int|
            0 <= k < list.len() ==> (#[trigger] list[k]).weight == list[0].weight && specificity_of(
                list[k].media_type,
            ) == specificity_of(list[0].media_type) && list[k].media_type.params.len()
                == list[0].media_type.params.len(),
    ensures
        preferred_of(list) == list[0],
        preferred_type(list) == list[0].media_type,
    decreases list.len(),
{
    if list.len() > 1 {
        let init = list.drop_last();
        assert forall|k: int| 0 <= k < init.len() implies (#[trigger] init[k]).weight
            == init[0].weight && specificity_of(init[k].media_type) == specificity_of(
            init[0].media_type,
        ) && init[k].media_type.params.len() == init[0].media_type.params.len() by {
            assert(init[k] == list[k]);
        }
        law_first_of_alike_is_preferred(init);
        assert(list[list.len() - 1] == list.last());
    }
}

/// A weight is one, or zero with up to three decimals, in thousandths. More than one is none.
pub proof fn law_weight(a: char, b: char, c: char)
    requires
        '0' <= a <= '9',
        '0' <= b <= '9',
        '0' <= c <= '9',
    ensures
        weight_of(seq!['1']) == Some(1000u16),
        weight_of(seq!['0']) == Some(0u16),
        weight_of(seq!['0', '.', a]) == Some((100 * (a as int - 48)) as u16),
        weight_of(seq!['0', '.', a, b]) == Some((100 * (a as int - 48) + 10 * (b as int - 48)) as u16),
        weight_of(seq!['0', '.', a, b, c]) == Some(
            (100 * (a as int - 48) + 10 * (b as int - 48) + (c as int - 48)) as u16,
        ),
        weight_of(seq!['1', '.', '0', '0', '0']) == Some(1000u16),
        a != '0' || b != '0' || c != '0' ==> weight_of(seq!['1', '.', a, b, c]) is None,
{
}

/// Nothing that does not start with zero or one, goes on with anything but a point and digits, or has
/// more than three of those, is a weight.
pub proof fn law_no_weight(s: Seq<char>, i: int)
    ensures
        s.len() == 0 || s.len() > 5 ==> weight_of(s) is None,
        s.len() > 0 && s[0] != '0' && s[0] != '1' ==> weight_of(s) is None,
        s.len() > 1 && s[1] != '.' ==> weight_of(s) is None,
        2 <= i < s.len() && !('0' <= s[i] <= '9') ==> weight_of(s) is None,
        weight_of(s) matches Some(w) ==> w <= 1000,
{
}

/// The weight of a media type is in its first parameter, if that has the name `q`. Without such a
/// parameter there is none.
pub proof fn law_weighted(m: MediaTypeView)
    ensures
        m.params.len() == 0 ==> weighted(m) == Some(QMediaTypeView { media_type: m, weight: None }),
        m.params.len() > 0 && m.params[0].name != seq!['q'] ==> weighted(m) == Some(
            QMediaTypeView { media_type: m, weight: None },
        ),
        m.params.len() > 0 && m.params[0].name == seq!['q'] && m.params[0].value.len() <= 5 ==> (
        match weight_of(m.params[0].value) {
            Some(w) => weighted(m) == Some(QMediaTypeView { media_type: m, weight: Some(w) }),
            None => weighted(m) is None,
        }),
        m.params.len() > 0 && m.params[0].value.len() > 5 ==> weighted(m) == Some(
            QMediaTypeView { media_type: m, weight: None },
        ),
{
}

/// Among those with the same names and the same weight, or none, what is preferred has as many
/// parameters as any.
pub proof fn law_preferred_has_the_most_params(list: Seq<QMediaTypeView>, i: int)
    requires
        0 <= i < list.len(),
        list[0].weight matches Some(w) ==> w <= 1000,
        forall|k: int|
            0 <= k < list.len() ==> (#[trigger] list[k]).weight == list[0].weight
                && list[k].media_type.top == list[0].media_type.top && list[k].media_type.sub
                == list[0].media_type.sub,
    ensures
        list[i].media_type.params.len() <= preferred_of(list).media_type.params.len(),
        preferred_of(list).weight == list[0].weight,
        preferred_of(list).media_type.top == list[0].media_type.top,
        preferred_of(list).media_type.sub == list[0].media_type.sub,
    decreases list.len(),
{
    if list.len() > 1 {
        let init = list.drop_last();
        assert forall|k: int| 0 <= k < init.len() implies (#[trigger] init[k]).weight
            == init[0].weight && init[k].media_type.top == init[0].media_type.top
            && init[k].media_type.sub == init[0].media_type.sub by {
            assert(init[k] == list[k]);
        }
        assert(list[list.len() - 1] == list.last());
        let n = if i < init.len() {
            i
        } else {
            0
        };
        law_preferred_has_the_most_params(init, n);
        assert(init[n] == list[n]);
    }
}

fn parse_weight(s: &str) -> (r: Option<u16>)
    ensures
        r == weight_of(s@),
{
    let v = chars_of(s);
    if v.len() < 1 || v.len() > 5 || (v[0] != '0' && v[0] != '1') || (v.len() > 1 && v[1] != '.') {
        return None;
    }
    let mut i: usize = 2;
    let mut n: u16 = if v[0] == '1' {
        1000
    } else {
        0
    };
    assert('0' as int == 48 && '1' as int == 49);
    while i < v.len()
        invariant
            v@ == s@,
            1 <= v.len() <= 5,
            2 <= i,
            i <= v.len() || v.len() < 2 && i == 2,
            forall|j: int| 2 <= j < i && j < v.len() ==> '0' <= #[trigger] s@[j] <= '9',
            i == 2 ==> n == 1000 * digit_at(s@, 0),
            i == 3 ==> n == 1000 * digit_at(s@, 0) + 100 * digit_at(s@, 2),
            i == 4 ==> n == 1000 * digit_at(s@, 0) + 100 * digit_at(s@, 2) + 10
                * digit_at(s@, 3),
            i == 5 ==> n == 1000 * digit_at(s@, 0) + 100 * digit_at(s@, 2) + 10 * digit_at(s@, 3)
                + digit_at(s@, 4),
            0 <= digit_at(s@, 0) <= 1,
            i <= 5,
        decreases 5 - i,
    {
        if v[i] < '0' || v[i] > '9' {
            assert(!('0' <= s@[i as int] <= '9'));
            return None;
        }
        let d: u16 = v[i] as u16 - 48;
        assert(d == digit_at(s@, i as int) && d <= 9);
        if i == 2 {
            n += 100 * d;
        } else if i == 3 {
            n += 10 * d;
        } else {
            n += d;
        }
        i += 1;
    }
    if n > 1000 {
        None
    } else {
        Some(n)
    }
}

fn weigh(m: MediaType) -> (r: Option<QMediaType>)
    ensures
        match r {
            Some(q) => weighted(m@) == Some(q@),
            None => weighted(m@) is None,
        },
{
    proof {
        reveal_strlit("q");
    }
    assert("q"@ =~= seq!['q']);
    if m.params.len() > 0 && eq_text(m.params[0].name.as_str(), "q") && m.params[0].value.as_str(
    ).unicode_len() <= 5 {
        match parse_weight(m.params[0].value.as_str()) {
            Some(w) => Some(QMediaType { media_type: m, weight: Some(w) }),
            None => None,
        }
    } else {
        Some(QMediaType { media_type: m, weight: None })
    }
}

/// Reads a whole text as a list of weighted media types.
pub fn parse_accept(s: &str) -> (r: Option<Accept>)
    ensures
        match r {
            Some(a) => accept_of(s@) == Some(a@),
            None => accept_of(s@) is None,
        },
{
    let v = chars_of(s);
    let mut types: Vec<QMediaType> = Vec::new();
    let mut at: usize = 0;
    proof {
        if let Some(rest) = accept_of(s@) {
            assert(q_views(types@) + rest =~= rest);
        }
    }
    loop
        invariant
            v@ == s@,
            at <= v.len(),
            match accept_at(s@, at as int) {
                Some(rest) => accept_of(s@) == Some(q_views(types@) + rest),
                None => accept_of(s@) is None,
            },
        decreases v.len() - at,
    {
        let start = skip_space(&v, at);
        let (m, e) = match parse_media_type_at(s, &v, start) {
            Some((m, e)) => (m, e),
            None => {
                return None;
            },
        };
        let q = match weigh(m) {
            Some(q) => q,
            None => {
                return None;
            },
        };
        let j = skip_space(&v, e);
        let ghost done = q_views(types@);
        let ghost qv = q@;
        types.push(q);
        assert(q_views(types@) =~= done.push(qv));
        if j == v.len() {
            assert(done + seq![qv] =~= q_views(types@));
            return Some(Accept { types });
        }
        if v[j] != ',' {
            return None;
        }
        proof {
            if let Some(rest) = accept_at(s@, j + 1) {
                assert(done + (seq![qv] + rest) =~= q_views(types@) + rest);
            }
        }
        at = j + 1;
    }
}

impl Accept {
    /// The preferred media type.
    pub fn preferred(&self) -> (r: MediaType)
        ensures
            r@ == preferred_type(self@),
    {
        if self.types.len() == 0 {
            return MediaType::any();
        }
        let mut best: usize = 0;
        let mut i: usize = 1;
        assert(self@.take(1)[0] == self@[0]);
        while i < self.types.len()
            invariant
                1 <= i <= self.types.len(),
                best < i,
                preferred_of(self@.take(i as int)) == self@[best as int],
            decreases self.types.len() - i,
        {
            let a = &self.types[best];
            let b = &self.types[i];
            let weight_a: u16 = match a.weight {
                Some(w) => w,
                None => 1000,
            };
            let weight_b: u16 = match b.weight {
                Some(w) => w,
                None => 0,
            };
            let even = match (a.weight, b.weight) {
                (Some(x), Some(y)) => x == y,
                (None, None) => true,
                _ => false,
            };
            assert(even == (a@.weight == b@.weight));
            proof {
                assert(self@.take(i + 1).drop_last() =~= self@.take(i as int));
                assert(self@.take(i + 1).last() == b@);
            }
            if (b.weight.is_none() && a.weight.is_some()) || weight_b > weight_a || (even
                && a.media_type.specificity() < b.media_type.specificity()) || (even
                && a.media_type.is_same(&b.media_type) && a.media_type.params.len()
                < b.media_type.params.len()) {
                best = i;
            }
            i += 1;
        }
        assert(self@.take(i as int) =~= self@);
        self.types[best].media_type.clone()
    }
}

/// How a list is written in a header: its media types, which have their weights among their
/// parameters, with commas between them.
pub open spec fn rendered_list(list: Seq<QMediaTypeView>) -> Seq<char>
    decreases list.len(),
{
    if list.len() == 0 {
        Seq::empty()
    } else if list.len() == 1 {
        rendered(list[0].media_type)
    } else {
        rendered(list[0].media_type) + seq![',', ' '] + rendered_list(list.skip(1))
    }
}

/// Whether a list can be written: it is not empty, its media types can be written, and their weights
/// are those that their parameters give.
pub open spec fn writable_list(list: Seq<QMediaTypeView>) -> bool {
    &&& list.len() > 0
    &&& forall|i: int|
        0 <= i < list.len() ==> writable((#[trigger] list[i]).media_type) && weighted(
            list[i].media_type,
        ) == Some(list[i])
}

/// A list reads as it was written.
proof fn lemma_list_reads(s: Seq<char>, i: int, j: int, list: Seq<QMediaTypeView>)
    requires
        0 <= i <= j <= s.len(),
        forall|k: int| i <= k < j ==> #[trigger] s[k] == ' ',
        writable_list(list),
        s.skip(j) == rendered_list(list),
    ensures
        accept_at(s, i) == Some(list),
    decreases list.len(), j - i,
{
    let q = list[0];
    let text = rendered(q.media_type);
    let w = s.skip(j);
    let e = j + text.len();
    assert(w.len() == s.len() - j);
    assert(text[0] == q.media_type.top[0]);
    assert(is_token(q.media_type.top[0]));
    assert(s[j] == w[0]);
    lemma_spaces(s, i, j);
    assert(s.subrange(j, e) =~= text) by {
        assert forall|k: int| 0 <= k < text.len() implies s.subrange(j, e)[k] == text[k] by {
            assert(s[j + k] == w[k]);
        }
    }
    if list.len() == 1 {
        lemma_type_reads(s, j, q.media_type, e);
        assert(seq![q] =~= list);
    } else {
        let rest = list.skip(1);
        assert(w.len() == text.len() + 2 + rendered_list(rest).len());
        assert(s[e] == w[e - j]);
        assert(s[e + 1] == w[e + 1 - j]);
        lemma_type_reads(s, j, q.media_type, e);
        assert(space_end(s, e) == e);
        assert(s.skip(e + 2) =~= rendered_list(rest)) by {
            assert forall|k: int| 0 <= k < rendered_list(rest).len() implies s.skip(e + 2)[k]
                == rendered_list(rest)[k] by {
                assert(s[e + 2 + k] == w[e + 2 + k - j]);
            }
        }
        assert forall|k: int| 0 <= k < rest.len() implies writable((#[trigger] rest[k]).media_type)
            && weighted(rest[k].media_type) == Some(rest[k]) by {
            assert(rest[k] == list[k + 1]);
        }
        lemma_list_reads(s, e + 1, e + 2, rest);
        assert(seq![q] + rest =~= list);
    }
}

/// Spaces up to another character end there.
proof fn lemma_spaces(s: Seq<char>, i: int, j: int)
    requires
        0 <= i <= j < s.len(),
        forall|k: int| i <= k < j ==> #[trigger] s[k] == ' ',
        !is_space(s[j]),
    ensures
        space_end(s, i) == j,
    decreases j - i,
{
    if i < j {
        lemma_spaces(s, i + 1, j);
    }
}

/// A list that was written reads as itself.
pub proof fn law_written_list_reads(list: Seq<QMediaTypeView>)
    requires
        writable_list(list),
    ensures
        accept_of(rendered_list(list)) == Some(list),
{
    let s = rendered_list(list);
    assert(s.skip(0) =~= s);
    lemma_list_reads(s, 0, 0, list);
}

/// A list is its media types with a comma and a space between any two: read so, it is the list.
pub proof fn law_list_in_order(first: QMediaTypeView, rest: Seq<QMediaTypeView>)
    requires
        writable_list(seq![first]),
        writable_list(rest),
    ensures
        accept_of(rendered(first.media_type)) == Some(seq![first]),
        accept_of(rendered(first.media_type) + seq![',', ' '] + rendered_list(rest)) == Some(
            seq![first] + rest,
        ),
{
    let one = seq![first];
    let all = one + rest;
    assert(one[0] == first);
    law_written_list_reads(one);
    assert forall|i: int| 0 <= i < all.len() implies writable((#[trigger] all[i]).media_type)
        && weighted(all[i].media_type) == Some(all[i]) by {
        if i > 0 {
            assert(all[i] == rest[i - 1]);
        } else {
            assert(all[i] == one[0]);
        }
    }
    law_written_list_reads(all);
    assert(all.skip(1) =~= rest);
    assert(all[0] == first);
}

/// Spaces and tabs on the two sides of a comma, and at both ends, make no difference.
pub proof fn law_spaces_round_comma(
    a: MediaTypeView,
    b: MediaTypeView,
    start: Seq<char>,
    left: Seq<char>,
    right: Seq<char>,
    end: Seq<char>,
)
    requires
        is_name(a.top) && is_name(a.sub) && a.params == Seq::<ParamView>::empty(),
        is_name(b.top) && is_name(b.sub) && b.params == Seq::<ParamView>::empty(),
        forall|i: int| 0 <= i < start.len() ==> is_space(#[trigger] start[i]),
        forall|i: int| 0 <= i < left.len() ==> is_space(#[trigger] left[i]),
        forall|i: int| 0 <= i < right.len() ==> is_space(#[trigger] right[i]),
        forall|i: int| 0 <= i < end.len() ==> is_space(#[trigger] end[i]),
    ensures
        accept_of(
            (start + (a.top + seq!['/'] + a.sub) + left) + seq![','] + right + (b.top + seq!['/']
                + b.sub) + end,
        ) == Some(
            seq![
                QMediaTypeView { media_type: a, weight: None },
                QMediaTypeView { media_type: b, weight: None },
            ],
        ),
{
    let x = a.top + seq!['/'] + a.sub;
    let y = b.top + seq!['/'] + b.sub;
    let front = start + x + left;
    let s = front + seq![','] + right + y + end;
    let i0 = start.len() as int;
    let e0 = i0 + x.len();
    let c = e0 + left.len();
    let i1 = c + 1 + right.len();
    let e1 = i1 + y.len();
    let n = s.len() as int;
    assert(s.subrange(i0, e0) =~= x) by {
        assert forall|k: int| 0 <= k < x.len() implies s.subrange(i0, e0)[k] == x[k] by {
            assert(s[i0 + k] == front[i0 + k]);
        }
    }
    assert(s.subrange(i1, e1) =~= y);
    assert forall|k: int| 0 <= k < i0 implies is_space(#[trigger] s[k]) by {
        assert(s[k] == front[k] && front[k] == start[k]);
    }
    assert forall|k: int| e0 <= k < c implies is_space(#[trigger] s[k]) by {
        assert(s[k] == front[k] && front[k] == left[k - e0]);
    }
    assert forall|k: int| c + 1 <= k < i1 implies is_space(#[trigger] s[k]) by {
        assert(s[k] == right[k - c - 1]);
    }
    assert forall|k: int| e1 <= k < n implies is_space(#[trigger] s[k]) by {
        assert(s[k] == end[k - e1]);
    }
    assert(s[c] == ',');
    lemma_two_types(s, i0, e0, c, i1, e1, a, b);
}

/// Two media types read as a list where only spaces and a comma stand round them.
proof fn lemma_two_types(
    s: Seq<char>,
    i0: int,
    e0: int,
    c: int,
    i1: int,
    e1: int,
    a: MediaTypeView,
    b: MediaTypeView,
)
    requires
        is_name(a.top) && is_name(a.sub) && a.params == Seq::<ParamView>::empty(),
        is_name(b.top) && is_name(b.sub) && b.params == Seq::<ParamView>::empty(),
        0 <= i0 <= e0 <= c < i1 <= e1 <= s.len(),
        s.subrange(i0, e0) == a.top + seq!['/'] + a.sub,
        s.subrange(i1, e1) == b.top + seq!['/'] + b.sub,
        s[c] == ',',
        forall|k: int| 0 <= k < i0 ==> is_space(#[trigger] s[k]),
        forall|k: int| e0 <= k < c ==> is_space(#[trigger] s[k]),
        forall|k: int| c + 1 <= k < i1 ==> is_space(#[trigger] s[k]),
        forall|k: int| e1 <= k < s.len() ==> is_space(#[trigger] s[k]),
    ensures
        accept_of(s) == Some(
            seq![
                QMediaTypeView { media_type: a, weight: None },
                QMediaTypeView { media_type: b, weight: None },
            ],
        ),
{
    let n = s.len() as int;
    if e0 < c {
        assert(is_space(s[e0]));
    }
    if e1 < n {
        assert(is_space(s[e1]));
    }
    lemma_plain_type_reads(s, i0, a.top, a.sub, e0);
    lemma_plain_type_reads(s, i1, b.top, b.sub, e1);
    let x = a.top + seq!['/'] + a.sub;
    let y = b.top + seq!['/'] + b.sub;
    assert(x[0] == a.top[0] && y[0] == b.top[0]);
    assert(is_token(a.top[0]) && is_token(b.top[0]));
    assert(s[i0] == s.subrange(i0, e0)[0]);
    assert(s[i1] == s.subrange(i1, e1)[0]);
    lemma_space_end(s, 0, i0);
    lemma_space_end(s, e0, c);
    lemma_space_end(s, c + 1, i1);
    lemma_space_end(s, e1, n);
    let p = QMediaTypeView { media_type: a, weight: None };
    let q = QMediaTypeView { media_type: b, weight: None };
    assert(media_type_at(s, i0) == Some((a, e0)));
    assert(media_type_at(s, i1) == Some((b, e1)));
    assert(accept_at(s, c + 1) == Some(seq![q]));
    assert(seq![p] + seq![q] =~= seq![p, q]);
}

/// A list ends in a media type: a comma after the last one makes it none, and so does nothing at all.
pub proof fn law_no_list(top: Seq<char>, sub: Seq<char>)
    requires
        is_name(top),
        is_name(sub),
    ensures
        accept_of(top + seq!['/'] + sub + seq![',']) is None,
        accept_of(Seq::<char>::empty()) is None,
{
    let plain = top + seq!['/'] + sub;
    let s = plain + seq![','];
    let e = plain.len() as int;
    assert(s.subrange(0, e) =~= plain);
    assert(s[e] == ',');
    assert(s[0] == top[0] && is_token(top[0]));
    lemma_plain_type_reads(s, 0, top, sub, e);
    lemma_space_end(s, 0, 0);
    lemma_space_end(s, e, e);
    lemma_space_end(s, e + 1, e + 1);
    assert(media_type_at(s, e + 1) is None);
    assert(accept_at(s, e + 1) is None);
}

/// A list that was read can be written.
proof fn lemma_read_list(s: Seq<char>, i: int)
    requires
        0 <= i <= s.len(),
        accept_at(s, i) is Some,
    ensures
        writable_list(accept_at(s, i)->0),
    decreases s.len() - i,
{
    lemma_ends(s, i);
    let a = space_end(s, i);
    lemma_read_type(s, a);
    let (m, e) = media_type_at(s, a)->0;
    let q = weighted(m)->0;
    let j = space_end(s, e);
    let list = accept_at(s, i)->0;
    if j != s.len() {
        lemma_read_list(s, j + 1);
        let rest = accept_at(s, j + 1)->0;
        assert(list == seq![q] + rest);
        assert forall|k: int| 0 <= k < list.len() implies writable((#[trigger] list[k]).media_type)
            && weighted(list[k].media_type) == Some(list[k]) by {
            if k > 0 {
                assert(list[k] == rest[k - 1]);
            }
        }
    }
}

/// Every list that was read can be written, and then reads as itself.
pub proof fn law_read_list_is_writable(s: Seq<char>)
    requires
        accept_of(s) is Some,
    ensures
        writable_list(accept_of(s)->0),
        accept_of(rendered_list(accept_of(s)->0)) == accept_of(s),
{
    lemma_read_list(s, 0);
    law_written_list_reads(accept_of(s)->0);
}

impl Accept {
    /// The list as it is written in a header.
    pub fn render(&self) -> (r: String)
        ensures
            r@ == rendered_list(self@),
    {
        proof {
            reveal_strlit(", ");
            assert(", "@ =~= seq![',', ' ']);
        }
        let ghost all = self@;
        let mut text = String::new();
        let mut i: usize = 0;
        assert(all.skip(0) =~= all);
        assert(text@ + rendered_list(all) =~= rendered_list(all));
        while i < self.types.len()
            invariant
                i <= self.types.len(),
                all == q_views(self.types@),
                ", "@ == seq![',', ' '],
                text@ + rendered_list(all.skip(i as int)) == rendered_list(all),
            decreases self.types.len() - i,
        {
            let ghost before = text@;
            let ghost rest = all.skip(i as int);
            let one = self.types[i].media_type.render();
            text.append(one.as_str());
            if i + 1 < self.types.len() {
                text.append(", ");
            }
            proof {
                assert(rest[0] == self.types@[i as int]@);
                assert(rest.skip(1) =~= all.skip(i + 1));
                assert(text@ + rendered_list(all.skip(i + 1)) =~= before + rendered_list(rest));
            }
            i += 1;
        }
        assert(text@ + rendered_list(all.skip(i as int)) =~= text@);
        text
    }
}

} // verus!
