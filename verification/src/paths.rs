//! A lexical model of filesystem paths.
//!
//! Paths are strings whose components are separated by `/`.  A path is split
//! into components; empty segments and `.` segments carry no meaning and are
//! dropped, a leading `/` marks the path as absolute.  On this model the
//! module defines the display simplification (cancelling a normal component
//! against a following `..`) and the lexical resolution of a link target
//! against the directory of the file that holds the link.  Nothing here
//! touches the filesystem: canonicalization, which resolves symlinks and
//! requires the path to exist, is the caller's task.

use vstd::prelude::*;
use vstd::string::StrSliceExecFns;
use vstd::string::StringExecFns;

use crate::strutil::{str_eq, push_char};

verus! {

/// Raw split of a string on `/`: always at least one segment, empty segments kept.
pub open spec fn spec_raw_segments(s: Seq<char>) -> Seq<Seq<char>>
    decreases s.len(),
{
    if s.len() == 0 {
        seq![Seq::<char>::empty()]
    } else {
        let rest = spec_raw_segments(s.drop_last());
        if s.last() == '/' {
            rest.push(Seq::<char>::empty())
        } else {
            rest.update(rest.len() - 1, rest.last().push(s.last()))
        }
    }
}

proof fn lemma_raw_segments_len(s: Seq<char>)
    ensures
        spec_raw_segments(s).len() >= 1,
    decreases s.len(),
{
    if s.len() > 0 {
        lemma_raw_segments_len(s.drop_last());
    }
}

/// A segment that names a real component: not empty, not the current directory.
pub open spec fn spec_keep_seg(seg: Seq<char>) -> bool {
    seg.len() > 0 && seg != "."@
}

pub open spec fn spec_filter_segs(raws: Seq<Seq<char>>) -> Seq<Seq<char>>
    decreases raws.len(),
{
    if raws.len() == 0 {
        Seq::empty()
    } else {
        let p = spec_filter_segs(raws.drop_last());
        if spec_keep_seg(raws.last()) {
            p.push(raws.last())
        } else {
            p
        }
    }
}

/// The meaningful components of a path, in order; `/`, empty and `.` segments dropped.
pub open spec fn spec_components(s: Seq<char>) -> Seq<Seq<char>> {
    spec_filter_segs(spec_raw_segments(s))
}

pub open spec fn spec_is_absolute(s: Seq<char>) -> bool {
    s.len() > 0 && s[0] == '/'
}

/// One simplification step over the components, left to right: `..` cancels a
/// preceding normal component; where none precedes it, it survives only in a
/// relative path, so that the path stays relative to the same place.
pub open spec fn spec_simplify_comps(comps: Seq<Seq<char>>, absolute: bool) -> Seq<Seq<char>>
    decreases comps.len(),
{
    if comps.len() == 0 {
        Seq::empty()
    } else {
        let prev = spec_simplify_comps(comps.drop_last(), absolute);
        let c = comps.last();
        if c == ".."@ {
            if prev.len() > 0 && prev.last() != ".."@ {
                prev.drop_last()
            } else if !absolute {
                prev.push(c)
            } else {
                prev
            }
        } else {
            prev.push(c)
        }
    }
}

/// Components joined with `/`.
pub open spec fn spec_join_segs(comps: Seq<Seq<char>>) -> Seq<char>
    decreases comps.len(),
{
    if comps.len() == 0 {
        Seq::empty()
    } else if comps.len() == 1 {
        comps[0]
    } else {
        spec_join_segs(comps.drop_last()) + "/"@ + comps.last()
    }
}

/// The string a component list and an absolute flag stand for.
pub open spec fn spec_rebuild(absolute: bool, comps: Seq<Seq<char>>) -> Seq<char> {
    if absolute {
        "/"@ + spec_join_segs(comps)
    } else {
        spec_join_segs(comps)
    }
}

/// The display form of a path: components simplified, then joined back.
pub open spec fn spec_simplify(s: Seq<char>) -> Seq<char> {
    spec_rebuild(
        spec_is_absolute(s),
        spec_simplify_comps(spec_components(s), spec_is_absolute(s)),
    )
}

/// Splits a path into its absolute flag and its meaningful components.
pub(crate) fn split_components(s: &str) -> (r: (bool, Vec<String>))
    ensures
        r.0 == spec_is_absolute(s@),
        r.1.deep_view() == spec_components(s@),
{
    let n: usize = s.unicode_len();
    let absolute: bool = n > 0 && s.get_char(0) == '/';
    let mut comps: Vec<String> = Vec::new();
    let mut cur: String = String::new();
    let mut i: usize = 0;
    proof {
        assert(s@.take(0) =~= Seq::<char>::empty());
    }
    while i < n
        invariant
            0 <= i <= n,
            n == s@.len(),
            spec_raw_segments(s@.take(i as int)).len() >= 1,
            comps.deep_view() == spec_filter_segs(
                spec_raw_segments(s@.take(i as int)).drop_last(),
            ),
            cur@ == spec_raw_segments(s@.take(i as int)).last(),
        decreases n - i,
    {
        let ghost pre = s@.take(i as int);
        let ghost raws = spec_raw_segments(pre);
        let c = s.get_char(i);
        proof {
            assert(s@.take(i + 1).drop_last() =~= pre);
            assert(s@.take(i + 1).last() == s@[i as int]);
            lemma_raw_segments_len(s@.take(i + 1));
        }
        if c == '/' {
            proof {
                assert(spec_raw_segments(s@.take(i + 1)) =~= raws.push(Seq::<char>::empty()));
                assert(raws.push(Seq::<char>::empty()).drop_last() =~= raws);
            }
            if cur.unicode_len() > 0 && !str_eq(cur.as_str(), ".") {
                let done = cur;
                cur = String::new();
                comps.push(done);
                proof {
                    assert(comps.deep_view() =~= spec_filter_segs(raws));
                }
            } else {
                cur = String::new();
                proof {
                    assert(comps.deep_view() =~= spec_filter_segs(raws));
                }
            }
        } else {
            proof {
                let raws2 = spec_raw_segments(s@.take(i + 1));
                assert(raws2 =~= raws.update(raws.len() - 1, raws.last().push(c)));
                assert(raws2.drop_last() =~= raws.drop_last());
                assert(raws2.last() == raws.last().push(c));
            }
            push_char(&mut cur, c);
        }
        i += 1;
    }
    proof {
        assert(s@.take(n as int) =~= s@);
        lemma_raw_segments_len(s@);
    }
    if cur.unicode_len() > 0 && !str_eq(cur.as_str(), ".") {
        comps.push(cur);
        proof {
            assert(comps.deep_view() =~= spec_filter_segs(spec_raw_segments(s@)));
        }
    } else {
        proof {
            assert(comps.deep_view() =~= spec_filter_segs(spec_raw_segments(s@)));
        }
    }
    (absolute, comps)
}

/// Applies the `..`-cancellation rule to a component list.
pub(crate) fn simplify_comps(comps: Vec<String>, absolute: bool) -> (out: Vec<String>)
    ensures
        out.deep_view() == spec_simplify_comps(comps.deep_view(), absolute),
{
    let mut out: Vec<String> = Vec::new();
    let n: usize = comps.len();
    proof {
        assert(comps.deep_view().take(0) =~= Seq::<Seq<char>>::empty());
    }
    let mut i: usize = 0;
    while i < n
        invariant
            0 <= i <= n,
            n == comps.len(),
            comps.deep_view().len() == n,
            out.deep_view() == spec_simplify_comps(comps.deep_view().take(i as int), absolute),
        decreases n - i,
    {
        let ghost cv = comps.deep_view();
        let ghost prev = out.deep_view();
        proof {
            assert(cv.take(i + 1).drop_last() =~= cv.take(i as int));
            assert(cv.take(i + 1).last() == cv[i as int]);
            assert(cv[i as int] == comps[i as int]@);
        }
        let c = &comps[i];
        if str_eq(c.as_str(), "..") {
            let m = out.len();
            if m > 0 && !str_eq(out[m - 1].as_str(), "..") {
                proof {
                    assert(prev.last() == out[m - 1]@);
                }
                let _ = out.pop();
                proof {
                    assert(out.deep_view() =~= prev.drop_last());
                }
            } else if !absolute {
                out.push(c.clone());
                proof {
                    assert(out.deep_view() =~= prev.push(cv[i as int]));
                }
            } else {
                proof {
                    if m > 0 {
                        assert(prev.last() == out[m - 1]@);
                    }
                }
            }
        } else {
            out.push(c.clone());
            proof {
                assert(out.deep_view() =~= prev.push(cv[i as int]));
            }
        }
        i += 1;
    }
    proof {
        assert(comps.deep_view().take(n as int) =~= comps.deep_view());
    }
    out
}

/// Joins a component list back into a path string.
pub(crate) fn rebuild(absolute: bool, comps: &Vec<String>) -> (r: String)
    ensures
        r@ == spec_rebuild(absolute, comps.deep_view()),
{
    let mut body = String::new();
    let n: usize = comps.len();
    proof {
        assert(comps.deep_view().take(0) =~= Seq::<Seq<char>>::empty());
    }
    let mut i: usize = 0;
    while i < n
        invariant
            0 <= i <= n,
            n == comps.len(),
            comps.deep_view().len() == n,
            body@ == spec_join_segs(comps.deep_view().take(i as int)),
        decreases n - i,
    {
        let ghost cv = comps.deep_view();
        proof {
            assert(cv.take(i + 1).drop_last() =~= cv.take(i as int));
            assert(cv.take(i + 1).last() == cv[i as int]);
            assert(cv[i as int] == comps[i as int]@);
        }
        if i > 0 {
            push_char(&mut body, '/');
            proof {
                reveal_strlit("/");
                assert(body@ =~= spec_join_segs(cv.take(i as int)) + "/"@);
            }
        }
        body.append(comps[i].as_str());
        proof {
            if i == 0 {
                assert(cv.take(1).len() == 1);
                assert(spec_join_segs(cv.take(1)) == cv.take(1)[0]);
                assert(body@ =~= cv[0]);
            } else {
                assert(body@ =~= spec_join_segs(cv.take(i as int)) + "/"@ + cv[i as int]);
            }
        }
        i += 1;
    }
    proof {
        assert(comps.deep_view().take(n as int) =~= comps.deep_view());
    }
    if absolute {
        let mut r = String::new();
        push_char(&mut r, '/');
        r.append(body.as_str());
        proof {
            reveal_strlit("/");
            assert(r@ =~= "/"@ + body@);
        }
        r
    } else {
        body
    }
}

/// Produces the display form of a path: `.` components dropped, a normal
/// component cancelled against an immediately following `..`, nothing else
/// changed, and the filesystem never consulted.
pub fn simplify_path(path: &str) -> (r: String)
    ensures
        r@ == spec_simplify(path@),
{
    let (absolute, comps) = split_components(path);
    let simplified = simplify_comps(comps, absolute);
    rebuild(absolute, &simplified)
}

/// The directory part of a file path: its components except the last.
pub open spec fn spec_parent_comps(comps: Seq<Seq<char>>) -> Seq<Seq<char>> {
    if comps.len() > 0 {
        comps.drop_last()
    } else {
        comps
    }
}

/// The lexical resolution of a link target against the file that holds the
/// link: an absolute target stands alone; a relative one is appended to the
/// file's directory.
pub open spec fn spec_resolve(file: Seq<char>, target: Seq<char>) -> Seq<char> {
    if spec_is_absolute(target) {
        target
    } else {
        let base = spec_rebuild(
            spec_is_absolute(file),
            spec_parent_comps(spec_components(file)),
        );
        if base.len() == 0 {
            target
        } else if base == "/"@ {
            base + target
        } else {
            base + "/"@ + target
        }
    }
}

pub(crate) fn resolve_target(file: &str, target: &str) -> (r: String)
    ensures
        r@ == spec_resolve(file@, target@),
{
    let tn: usize = target.unicode_len();
    if tn > 0 && target.get_char(0) == '/' {
        return target.to_owned();
    }
    let (absolute, mut comps) = split_components(file);
    if comps.len() > 0 {
        let ghost cv = comps.deep_view();
        let _ = comps.pop();
        proof {
            assert(comps.deep_view() =~= cv.drop_last());
        }
    }
    let base = rebuild(absolute, &comps);
    if base.unicode_len() == 0 {
        target.to_owned()
    } else if str_eq(base.as_str(), "/") {
        let mut r = base;
        r.append(target);
        r
    } else {
        let mut r = base;
        push_char(&mut r, '/');
        r.append(target);
        proof {
            reveal_strlit("/");
            assert(r@ =~= spec_rebuild(
                spec_is_absolute(file@),
                spec_parent_comps(spec_components(file@)),
            ) + "/"@ + target@);
        }
        r
    }
}

} // verus!
