//! Heading slugs.
//!
//! A heading's title is turned into a slug: spaces become `-`, ASCII letters
//! are lowercased, and every character other than ASCII alphanumerics, `-`
//! and `_` is dropped.  A document's slug list is the slug of each heading in
//! document order, where a slug equal to `k` earlier ones is suffixed `-k`:
//! a first occurrence passes unsuffixed, and two occurrences of one base
//! never repeat verbatim (`lemma_duplicates_are_suffixed`).

use vstd::prelude::*;
use vstd::string::StrSliceExecFns;
use vstd::string::StringExecFns;

use crate::events::{parse_events, md_events_of, MdEvent};
use crate::strutil::{
    lower_char, push_char, spec_dec_digits, spec_digit_char, spec_lower_char, str_eq,
    usize_to_string,
};

verus! {

/// Whether a character survives slugification: ASCII alphanumeric, `-` or `_`.
pub open spec fn spec_slug_keep(c: char) -> bool {
    (48 <= c as u32 && c as u32 <= 57) || (65 <= c as u32 && c as u32 <= 90) || (97 <= c as u32
        && c as u32 <= 122) || c == '-' || c == '_'
}

/// The slugification of one character, before the keep test: a space becomes
/// a hyphen, everything else stands.
pub open spec fn spec_space_to_dash(c: char) -> char {
    if c == ' ' {
        '-'
    } else {
        c
    }
}

/// The slug of a title: spaces mapped to `-`, then only ASCII alphanumerics,
/// `-` and `_` kept, then ASCII letters lowercased.
pub open spec fn spec_slugify(s: Seq<char>) -> Seq<char>
    decreases s.len(),
{
    if s.len() == 0 {
        Seq::empty()
    } else {
        let rest = spec_slugify(s.drop_last());
        let m = spec_space_to_dash(s.last());
        if spec_slug_keep(m) {
            rest.push(spec_lower_char(m))
        } else {
            rest
        }
    }
}

fn slug_keep(c: char) -> (r: bool)
    ensures
        r == spec_slug_keep(c),
{
    let u: u32 = c as u32;
    (48 <= u && u <= 57) || (65 <= u && u <= 90) || (97 <= u && u <= 122) || c == '-' || c == '_'
}

/// Slugify a Markdown header title.
pub fn slugify(header: &str) -> (r: String)
    ensures
        r@ == spec_slugify(header@),
{
    let n: usize = header.unicode_len();
    let mut out = String::new();
    let mut i: usize = 0;
    proof {
        assert(header@.take(0) =~= Seq::<char>::empty());
    }
    while i < n
        invariant
            0 <= i <= n,
            n == header@.len(),
            out@ == spec_slugify(header@.take(i as int)),
        decreases n - i,
    {
        proof {
            assert(header@.take(i + 1).drop_last() =~= header@.take(i as int));
            assert(header@.take(i + 1).last() == header@[i as int]);
        }
        let c = header.get_char(i);
        let m = if c == ' ' {
            '-'
        } else {
            c
        };
        if slug_keep(m) {
            push_char(&mut out, lower_char(m));
        }
        i += 1;
    }
    proof {
        assert(header@.take(n as int) =~= header@);
    }
    out
}

/// The state of the title scanner after a prefix of the events, together with
/// the titles collected so far: while a heading is open, its pending title.
pub open spec fn spec_scan_titles(events: Seq<MdEvent>) -> (Option<Seq<char>>, Seq<Seq<char>>)
    decreases events.len(),
{
    if events.len() == 0 {
        (None, Seq::empty())
    } else {
        let (acc, done) = spec_scan_titles(events.drop_last());
        match acc {
            Some(title) => match events.last() {
                MdEvent::HeadingEnd => (None, done.push(title)),
                MdEvent::Text(t) => (Some(title + t@), done),
                _ => (Some(title), done),
            },
            None => match events.last() {
                MdEvent::HeadingStart => (Some(Seq::empty()), done),
                _ => (None, done),
            },
        }
    }
}

/// The heading titles of an event stream, in document order.  A heading still
/// open when the stream ends yields no title.
pub open spec fn spec_heading_titles(events: Seq<MdEvent>) -> Seq<Seq<char>> {
    spec_scan_titles(events).1
}

/// How many entries of a list equal a given value.
pub open spec fn spec_count_eq(s: Seq<Seq<char>>, x: Seq<char>) -> nat {
    s.filter(|y: Seq<char>| y == x).len()
}

/// How many of the first `i` entries equal the entry at `i`.
pub open spec fn spec_count_prior(s: Seq<Seq<char>>, i: int) -> nat {
    spec_count_eq(s.take(i), s[i])
}

/// The suffixed slug at position `i` of a base-slug list: the base itself for
/// a first occurrence, `base-k` for the `k`-th duplicate.
pub open spec fn spec_suffixed(bases: Seq<Seq<char>>, i: int) -> Seq<char> {
    let k = spec_count_prior(bases, i);
    if k == 0 {
        bases[i]
    } else {
        bases[i] + "-"@ + spec_dec_digits(k as int)
    }
}

/// The slug list derived from a base-slug list, duplicates suffixed in order.
pub open spec fn spec_suffix_all(bases: Seq<Seq<char>>) -> Seq<Seq<char>> {
    Seq::new(bases.len(), |i: int| spec_suffixed(bases, i))
}

/// The slug list of an event stream: each heading title slugified, then
/// duplicates suffixed in document order.
pub open spec fn spec_slugs_of_events(events: Seq<MdEvent>) -> Seq<Seq<char>> {
    spec_suffix_all(spec_heading_titles(events).map_values(|t: Seq<char>| spec_slugify(t)))
}

/// Counts the entries of `bases` equal to `needle`.
fn count_matches(bases: &Vec<String>, needle: &String) -> (k: usize)
    ensures
        k == bases.deep_view().filter(|x: Seq<char>| x == needle@).len(),
{
    let n: usize = bases.len();
    let mut k: usize = 0;
    let mut i: usize = 0;
    proof {
        assert(bases.deep_view().take(0) =~= Seq::<Seq<char>>::empty());
        reveal_with_fuel(Seq::<_>::filter, 1);
    }
    while i < n
        invariant
            0 <= i <= n,
            n == bases.len(),
            bases.deep_view().len() == n,
            k == bases.deep_view().take(i as int).filter(|x: Seq<char>| x == needle@).len(),
            k <= i,
        decreases n - i,
    {
        let ghost bv = bases.deep_view();
        let ghost pred = |x: Seq<char>| x == needle@;
        proof {
            assert(bv.take(i + 1).drop_last() =~= bv.take(i as int));
            assert(bv.take(i + 1).last() == bv[i as int]);
            assert(bv[i as int] == bases[i as int]@);
            reveal_with_fuel(Seq::<_>::filter, 2);
        }
        if str_eq(bases[i].as_str(), needle.as_str()) {
            proof {
                assert(bv.take(i + 1).filter(pred) =~= bv.take(i as int).filter(pred).push(
                    bv[i as int],
                ));
            }
            k += 1;
        } else {
            proof {
                assert(bv.take(i + 1).filter(pred) =~= bv.take(i as int).filter(pred));
            }
        }
        i += 1;
    }
    proof {
        assert(bases.deep_view().take(n as int) =~= bases.deep_view());
    }
    k
}

/// Appending a base slug leaves every earlier suffixed slug as it was.
proof fn lemma_suffix_all_push(bases: Seq<Seq<char>>, b: Seq<char>)
    ensures
        spec_suffix_all(bases.push(b)) =~= spec_suffix_all(bases).push(
            spec_suffixed(bases.push(b), bases.len() as int),
        ),
{
    let p = bases.push(b);
    assert forall|i: int| 0 <= i < bases.len() implies spec_suffixed(p, i) == spec_suffixed(
        bases,
        i,
    ) by {
        assert(p.take(i) =~= bases.take(i));
        assert(p[i] == bases[i]);
    }
}

/// Turns an event stream into its slug list, titles collected between heading
/// start and end, duplicates suffixed in document order.
pub fn slugs_from_events(events: &Vec<MdEvent>) -> (slugs: Vec<String>)
    ensures
        slugs.deep_view() == spec_slugs_of_events(events@),
{
    let n: usize = events.len();
    let mut accumulating: bool = false;
    let mut title: String = String::new();
    let mut bases: Vec<String> = Vec::new();
    let mut out: Vec<String> = Vec::new();
    let mut i: usize = 0;
    proof {
        assert(events@.take(0) =~= Seq::<MdEvent>::empty());
        assert(bases.deep_view() =~= Seq::<Seq<char>>::empty());
        assert(spec_heading_titles(events@.take(0)).map_values(|t: Seq<char>| spec_slugify(t))
            =~= Seq::<Seq<char>>::empty());
        assert(out.deep_view() =~= spec_suffix_all(bases.deep_view()));
    }
    while i < n
        invariant
            0 <= i <= n,
            n == events.len(),
            accumulating == (spec_scan_titles(events@.take(i as int)).0 is Some),
            accumulating ==> title@ == spec_scan_titles(events@.take(i as int)).0->0,
            bases.deep_view() == spec_heading_titles(events@.take(i as int)).map_values(
                |t: Seq<char>| spec_slugify(t),
            ),
            out.deep_view() == spec_suffix_all(bases.deep_view()),
        decreases n - i,
    {
        let ghost pre = events@.take(i as int);
        let ghost st = spec_scan_titles(pre);
        proof {
            assert(events@.take(i + 1).drop_last() =~= pre);
            assert(events@.take(i + 1).last() == events@[i as int]);
        }
        if accumulating {
            match &events[i] {
                MdEvent::HeadingEnd => {
                    let base = slugify(title.as_str());
                    let k = count_matches(&bases, &base);
                    let ghost old_bases = bases.deep_view();
                    if k == 0 {
                        out.push(base.clone());
                    } else {
                        let mut suffixed = base.clone();
                        push_char(&mut suffixed, '-');
                        suffixed.append(usize_to_string(k).as_str());
                        proof {
                            reveal_strlit("-");
                            assert(suffixed@ =~= base@ + "-"@ + spec_dec_digits(k as int));
                        }
                        out.push(suffixed);
                    }
                    bases.push(base);
                    accumulating = false;
                    title = String::new();
                    proof {
                        assert(bases.deep_view() =~= old_bases.push(spec_slugify(st.0->0)));
                        assert(spec_heading_titles(events@.take(i + 1)).map_values(
                            |t: Seq<char>| spec_slugify(t),
                        ) =~= old_bases.push(spec_slugify(st.0->0)));
                        assert(old_bases.push(spec_slugify(st.0->0)).take(old_bases.len() as int)
                            =~= old_bases);
                        lemma_suffix_all_push(old_bases, spec_slugify(st.0->0));
                        assert(out.deep_view() =~= spec_suffix_all(bases.deep_view()));
                    }
                },
                MdEvent::Text(t) => {
                    title.append(t.as_str());
                    proof {
                        assert(bases.deep_view() =~= spec_heading_titles(events@.take(i + 1))
                            .map_values(|x: Seq<char>| spec_slugify(x)));
                    }
                },
                _ => {
                    proof {
                        assert(bases.deep_view() =~= spec_heading_titles(events@.take(i + 1))
                            .map_values(|x: Seq<char>| spec_slugify(x)));
                    }
                },
            }
        } else {
            match &events[i] {
                MdEvent::HeadingStart => {
                    accumulating = true;
                    title = String::new();
                },
                _ => {},
            }
            proof {
                assert(bases.deep_view() =~= spec_heading_titles(events@.take(i + 1)).map_values(
                    |x: Seq<char>| spec_slugify(x),
                ));
            }
        }
        i += 1;
    }
    proof {
        assert(events@.take(n as int) =~= events@);
    }
    out
}

/// Every decimal rendering has at least one digit.
proof fn lemma_dec_digits_len(n: int)
    requires
        0 <= n,
    ensures
        spec_dec_digits(n).len() >= 1,
    decreases n,
{
    if n >= 10 {
        lemma_dec_digits_len(n / 10);
    }
}

/// Distinct numbers have distinct decimal renderings.
proof fn lemma_dec_digits_injective(a: int, b: int)
    requires
        0 <= a,
        0 <= b,
        a != b,
    ensures
        spec_dec_digits(a) != spec_dec_digits(b),
    decreases a + b,
{
    lemma_dec_digits_len(a);
    lemma_dec_digits_len(b);
    if a < 10 && b < 10 {
        assert(spec_dec_digits(a)[0] == spec_digit_char(a));
        assert(spec_dec_digits(b)[0] == spec_digit_char(b));
        assert(spec_digit_char(a) != spec_digit_char(b));
    } else if a < 10 && b >= 10 {
        lemma_dec_digits_len(b / 10);
        assert(spec_dec_digits(b).len() >= 2);
    } else if a >= 10 && b < 10 {
        lemma_dec_digits_len(a / 10);
        assert(spec_dec_digits(a).len() >= 2);
    } else {
        if a % 10 != b % 10 {
            assert(spec_dec_digits(a).last() == spec_digit_char(a % 10));
            assert(spec_dec_digits(b).last() == spec_digit_char(b % 10));
            assert(spec_digit_char(a % 10) != spec_digit_char(b % 10));
        } else {
            assert(a / 10 != b / 10);
            lemma_dec_digits_injective(a / 10, b / 10);
            if spec_dec_digits(a) == spec_dec_digits(b) {
                assert(spec_dec_digits(a).drop_last() =~= spec_dec_digits(a / 10));
                assert(spec_dec_digits(b).drop_last() =~= spec_dec_digits(b / 10));
                assert(false);
            }
        }
    }
}

/// A list none of whose entries equals `x` has no match for `x`.
proof fn lemma_count_eq_zero(s: Seq<Seq<char>>, x: Seq<char>)
    requires
        forall|m: int| 0 <= m < s.len() ==> s[m] != x,
    ensures
        spec_count_eq(s, x) == 0,
    decreases s.len(),
{
    reveal(Seq::filter);
    if s.len() > 0 {
        lemma_count_eq_zero(s.drop_last(), x);
    }
}

/// A list one of whose entries equals `x` has a match for `x`.
proof fn lemma_count_eq_pos(s: Seq<Seq<char>>, x: Seq<char>, m: int)
    requires
        0 <= m < s.len(),
        s[m] == x,
    ensures
        spec_count_eq(s, x) >= 1,
    decreases s.len(),
{
    reveal(Seq::filter);
    if s.last() == x {
    } else {
        assert(m < s.len() - 1);
        lemma_count_eq_pos(s.drop_last(), x, m);
    }
}

/// A later occurrence of the same value counts strictly more predecessors.
proof fn lemma_count_prior_increases(s: Seq<Seq<char>>, i: int, j: int)
    requires
        0 <= i < j < s.len(),
        s[i] == s[j],
    ensures
        spec_count_prior(s, i) < spec_count_prior(s, j),
{
    let v = s[j];
    let pred = |y: Seq<char>| y == v;
    let front = s.take(i);
    let mid = s.subrange(i, j);
    assert(s.take(j) =~= front + mid);
    Seq::<Seq<char>>::filter_distributes_over_add(front, mid, pred);
    assert(mid[0] == s[i]);
    lemma_count_eq_pos(mid, v, 0);
    Seq::<Seq<char>>::lemma_filter_len(mid, pred);
    assert(spec_count_eq(s.take(j), v) == spec_count_eq(front, v) + spec_count_eq(mid, v));
    assert(spec_count_prior(s, i) == spec_count_eq(front, v));
}

/// Pairwise distinct base slugs pass through the duplicate rule unchanged:
/// a first occurrence is never suffixed.
pub proof fn lemma_distinct_bases_unsuffixed(bases: Seq<Seq<char>>)
    requires
        bases.no_duplicates(),
    ensures
        spec_suffix_all(bases) =~= bases,
{
    assert forall|i: int| 0 <= i < bases.len() implies spec_suffixed(bases, i) == bases[i] by {
        assert(forall|m: int| 0 <= m < i ==> bases.take(i)[m] != bases[i]);
        lemma_count_eq_zero(bases.take(i), bases[i]);
    }
}

/// Duplicates are always suffixed, and suffixed apart: two occurrences of one
/// base slug never yield the same entry, since the later occurrence counts
/// strictly more predecessors and carries that count's decimal suffix.
pub proof fn lemma_duplicates_are_suffixed(bases: Seq<Seq<char>>, i: int, j: int)
    requires
        0 <= i < j < bases.len(),
        bases[i] == bases[j],
    ensures
        spec_suffix_all(bases)[j] != bases[j],
        spec_suffix_all(bases)[i] != spec_suffix_all(bases)[j],
{
    reveal_strlit("-");
    let base = bases[j];
    let ki = spec_count_prior(bases, i) as int;
    let kj = spec_count_prior(bases, j) as int;
    lemma_count_prior_increases(bases, i, j);
    lemma_dec_digits_len(kj);
    let out_i = spec_suffix_all(bases)[i];
    let out_j = spec_suffix_all(bases)[j];
    assert(out_j == base + "-"@ + spec_dec_digits(kj));
    assert(out_j.len() > base.len());
    if ki == 0 {
        assert(out_i == base);
    } else {
        lemma_dec_digits_len(ki);
        lemma_dec_digits_injective(ki, kj);
        assert(out_i == base + "-"@ + spec_dec_digits(ki));
        if out_i == out_j {
            assert(out_i.skip(base.len() as int + 1) =~= spec_dec_digits(ki));
            assert(out_j.skip(base.len() as int + 1) =~= spec_dec_digits(kj));
            assert(false);
        }
    }
}

/// The slugs of all headings of a Markdown document, in document order,
/// duplicates suffixed: the parse of the text, reduced by `slugs_from_events`.
pub fn generate_slugs(content: &str) -> (slugs: Vec<String>)
    ensures
        slugs.deep_view() == spec_slugs_of_events(md_events_of(content@)),
{
    let events = parse_events(content);
    slugs_from_events(&events)
}

} // verus!
