//! The link checker itself.
//!
//! A `Checker` carries the options of one scan, the list of problems found so
//! far, and the slug cache shared across the whole traversal.  The caller
//! owns every filesystem step: it reads a file and hands its text to
//! `begin_file`, which reports the link references without a definition and
//! returns one `LinkJob` per local inline link; it probes each job's target
//! and hands the answers to `resolve_link`; and where that call asks for the
//! target's slugs it reads the target file and hands its text to
//! `finish_link`.  Every verdict drawn from those answers is decided and
//! verified here.  `check_broken_links_in_dir` plans the traversal of one
//! directory listing the same way.

use vstd::prelude::*;
use vstd::string::StrSliceExecFns;
use vstd::string::StringExecFns;
use vstd::std_specs::iter::IteratorSpec;

use crate::classify::{classify_link, spec_classify, LinkTarget, LinkTargetView};
use crate::events::{
    broken_refs_of, linked_events_of, parse_events_with_broken_refs, BrokenRefView, MdEvent,
};
use crate::slug::{generate_slugs, spec_slugs_of_events};
use crate::strutil::{str_eq, spec_lower, lower_str, spec_rfind_char, rfind_char};
use crate::paths::{split_components, spec_components};
use crate::events::md_events_of;

verus! {

broadcast use vstd::string::group_string_axioms;

/// Options of one scan, immutable while it runs.
#[derive(Debug, Clone, Copy)]
pub struct CheckerOptions {
    /// Skip fragment validation entirely.
    pub ignore_header_links: bool,
    /// Make a link to an existing directory, without a fragment, an error.
    pub disallow_dir_links: bool,
}

/// One invalid or broken link: the file it stands in, its 1-based line, and a
/// message.  A report record, never changed after creation.
pub struct DetectedBrokenLink {
    pub file: String,
    pub line: usize,
    pub error: String,
}

/// The specification-level shape of a `DetectedBrokenLink`.
pub struct BrokenLinkView {
    pub file: Seq<char>,
    pub line: int,
    pub error: Seq<char>,
}

impl View for DetectedBrokenLink {
    type V = BrokenLinkView;

    open spec fn view(&self) -> BrokenLinkView {
        BrokenLinkView { file: self.file@, line: self.line as int, error: self.error@ }
    }
}

impl DeepView for DetectedBrokenLink {
    type V = BrokenLinkView;

    open spec fn deep_view(&self) -> BrokenLinkView {
        self.view()
    }
}

/// What a whole scan ends in when it does not succeed: a fatal I/O failure,
/// or the complete list of the problems found.
pub enum CheckerError {
    Io(String),
    BrokenLinks(Vec<DetectedBrokenLink>),
}

/// Count of newline characters among the first `n` characters.
pub open spec fn spec_newlines_up_to(s: Seq<char>, n: int) -> int
    decreases n,
{
    if n <= 0 {
        0
    } else {
        spec_newlines_up_to(s, n - 1) + if s[n - 1] == '\n' {
            1int
        } else {
            0int
        }
    }
}

/// The 1-based line number of a source offset: one more than the newlines
/// preceding it.  An offset past the end counts the whole text.
pub open spec fn spec_line_of(s: Seq<char>, offset: int) -> int {
    1 + spec_newlines_up_to(
        s,
        if offset <= s.len() {
            offset
        } else {
            s.len() as int
        },
    )
}

/// Computes the 1-based line number of a source offset.
pub fn line_of_offset(content: &str, offset: usize) -> (line: usize)
    requires
        content@.len() < usize::MAX,
    ensures
        line as int == spec_line_of(content@, offset as int),
{
    let n: usize = content.unicode_len();
    let stop: usize = if offset <= n {
        offset
    } else {
        n
    };
    let mut it = content.chars();
    let mut count: usize = 0;
    let mut i: usize = 0;
    proof {
        assert(it.remaining() =~= content@.skip(0));
    }
    while i < stop
        invariant
            0 <= i <= stop,
            stop <= n,
            n == content@.len(),
            n < usize::MAX,
            it.remaining() == content@.skip(i as int),
            count == spec_newlines_up_to(content@, i as int),
            count <= i,
        decreases stop - i,
    {
        let ghost old_it = it;
        let c_opt = it.next();
        proof {
            assert(old_it.remaining().len() > 0);
            assert(old_it.remaining()[0] == content@[i as int]);
        }
        match c_opt {
            Some(c) => {
                if c == '\n' {
                    count += 1;
                }
            },
            None => {
                proof {
                    assert(false);
                }
            },
        }
        proof {
            assert(it.remaining() =~= content@.skip(i + 1));
        }
        i += 1;
    }
    count + 1
}

/// Message for a link reference without a definition.
pub open spec fn spec_msg_missing_target(reference: Seq<char>) -> Seq<char> {
    "missing target for link '"@ + reference + "'"@
}

fn msg_missing_target(reference: &str) -> (m: String)
    ensures
        m@ == spec_msg_missing_target(reference@),
{
    let mut m = "missing target for link '".to_owned();
    m.append(reference);
    m.append("'");
    proof {
        assert(m@ =~= spec_msg_missing_target(reference@));
    }
    m
}

/// Message for a target that does not exist.
pub open spec fn spec_msg_not_exist(display: Seq<char>) -> Seq<char> {
    "broken link found: path '"@ + display + "' does not exist"@
}

fn msg_not_exist(display: &str) -> (m: String)
    ensures
        m@ == spec_msg_not_exist(display@),
{
    let mut m = "broken link found: path '".to_owned();
    m.append(display);
    m.append("' does not exist");
    proof {
        assert(m@ =~= spec_msg_not_exist(display@));
    }
    m
}

/// Message for a directory target where only files are allowed.
pub open spec fn spec_msg_dir_not_allowed(display: Seq<char>) -> Seq<char> {
    "invalid link found: path '"@ + display + "' is a directory but only file links are allowed"@
}

fn msg_dir_not_allowed(display: &str) -> (m: String)
    ensures
        m@ == spec_msg_dir_not_allowed(display@),
{
    let mut m = "invalid link found: path '".to_owned();
    m.append(display);
    m.append("' is a directory but only file links are allowed");
    proof {
        assert(m@ =~= spec_msg_dir_not_allowed(display@));
    }
    m
}

/// Message for a fragment link whose target exists but is not a file.
pub open spec fn spec_msg_not_a_file(display: Seq<char>) -> Seq<char> {
    "invalid header link found: path '"@ + display + "' exists but is not a file"@
}

fn msg_not_a_file(display: &str) -> (m: String)
    ensures
        m@ == spec_msg_not_a_file(display@),
{
    let mut m = "invalid header link found: path '".to_owned();
    m.append(display);
    m.append("' exists but is not a file");
    proof {
        assert(m@ =~= spec_msg_not_a_file(display@));
    }
    m
}

/// Message for a fragment that names no heading of the target.
pub open spec fn spec_msg_header_not_found(fragment: Seq<char>, display: Seq<char>) -> Seq<char> {
    "broken link found: header '"@ + fragment + "' not found in '"@ + display + "'"@
}

fn msg_header_not_found(fragment: &str, display: &str) -> (m: String)
    ensures
        m@ == spec_msg_header_not_found(fragment@, display@),
{
    let mut m = "broken link found: header '".to_owned();
    m.append(fragment);
    m.append("' not found in '");
    m.append(display);
    m.append("'");
    proof {
        assert(m@ =~= spec_msg_header_not_found(fragment@, display@));
    }
    m
}

/// The mapping an entry list stands for: later entries would win, so the
/// checker keeps the keys distinct.
pub open spec fn spec_entries_map(s: Seq<(String, Vec<String>)>) -> Map<Seq<char>, Seq<Seq<char>>>
    decreases s.len(),
{
    if s.len() == 0 {
        Map::empty()
    } else {
        spec_entries_map(s.drop_last()).insert(s.last().0@, s.last().1.deep_view())
    }
}

/// A list of distinct keys stands for the map that sends each key to its
/// entry's slug list.
proof fn lemma_entries_map_props(s: Seq<(String, Vec<String>)>)
    requires
        forall|i: int, j: int|
            0 <= i < j < s.len() ==> s[i].0@ != s[j].0@,
    ensures
        forall|k: Seq<char>|
            spec_entries_map(s).contains_key(k) <==> exists|i: int|
                0 <= i < s.len() && s[i].0@ == k,
        forall|i: int|
            0 <= i < s.len() ==> spec_entries_map(s).contains_key(s[i].0@)
                && spec_entries_map(s).index(s[i].0@) == s[i].1.deep_view(),
    decreases s.len(),
{
    if s.len() > 0 {
        let p = s.drop_last();
        lemma_entries_map_props(p);
        assert(forall|i: int| 0 <= i < p.len() ==> p[i] == s[i]);
        assert forall|k: Seq<char>|
            spec_entries_map(s).contains_key(k) <==> exists|i: int|
                0 <= i < s.len() && s[i].0@ == k by {
            if spec_entries_map(s).contains_key(k) {
                if k == s[s.len() - 1].0@ {
                    assert(s[s.len() - 1].0@ == k);
                } else {
                    assert(spec_entries_map(p).contains_key(k));
                    let i = choose|i: int| 0 <= i < p.len() && p[i].0@ == k;
                    assert(s[i].0@ == k);
                }
            }
            if exists|i: int| 0 <= i < s.len() && s[i].0@ == k {
                let i = choose|i: int| 0 <= i < s.len() && s[i].0@ == k;
                if i == s.len() - 1 {
                    assert(spec_entries_map(s).contains_key(k));
                } else {
                    assert(p[i].0@ == k);
                    assert(spec_entries_map(p).contains_key(k));
                }
            }
        }
        assert forall|i: int| 0 <= i < s.len() implies spec_entries_map(s).contains_key(s[i].0@)
            && spec_entries_map(s)[s[i].0@] == s[i].1.deep_view() by {
            if i < s.len() - 1 {
                assert(s[i].0@ != s[s.len() - 1].0@);
                assert(spec_entries_map(p).contains_key(s[i].0@));
            }
        }
    }
}

/// Mapping from canonical file path to that file's slug sequence, shared
/// across a whole traversal.  Entries are inserted at most once per distinct
/// path and never removed or changed: append-only memoization.
pub struct FileLinksCache {
    entries: Vec<(String, Vec<String>)>,
}

impl View for FileLinksCache {
    type V = Map<Seq<char>, Seq<Seq<char>>>;

    closed spec fn view(&self) -> Map<Seq<char>, Seq<Seq<char>>> {
        spec_entries_map(self.entries@)
    }
}

impl FileLinksCache {
    /// Keys are pairwise distinct, so each lookup answer is the entry that
    /// was inserted for that key.
    pub closed spec fn wf(&self) -> bool {
        forall|i: int, j: int|
            0 <= i < j < self.entries@.len() ==> self.entries@[i].0@ != self.entries@[j].0@
    }

    /// An empty cache.
    pub fn new() -> (c: FileLinksCache)
        ensures
            c.wf(),
            c@ == Map::<Seq<char>, Seq<Seq<char>>>::empty(),
    {
        let c = FileLinksCache { entries: Vec::new() };
        proof {
            assert(c.entries@.len() == 0);
        }
        c
    }

    /// The slug list stored for a canonical path, if one was stored.
    pub fn lookup(&self, key: &str) -> (r: Option<&Vec<String>>)
        requires
            self.wf(),
        ensures
            match r {
                Some(v) => self@.contains_key(key@) && v.deep_view() == self@[key@],
                None => !self@.contains_key(key@),
            },
    {
        proof {
            lemma_entries_map_props(self.entries@);
        }
        let n: usize = self.entries.len();
        let mut i: usize = 0;
        while i < n
            invariant
                0 <= i <= n,
                n == self.entries@.len(),
                self.wf(),
                self@ == spec_entries_map(self.entries@),
                forall|j: int| 0 <= j < i ==> self.entries@[j].0@ != key@,
                forall|k: Seq<char>|
                    self@.contains_key(k) <==> exists|j: int|
                        0 <= j < self.entries@.len() && self.entries@[j].0@ == k,
                forall|j: int|
                    0 <= j < self.entries@.len() ==> self@.contains_key(self.entries@[j].0@)
                        && self@[self.entries@[j].0@] == self.entries@[j].1.deep_view(),
            decreases n - i,
        {
            if str_eq(self.entries[i].0.as_str(), key) {
                return Some(&self.entries[i].1);
            }
            i += 1;
        }
        None
    }

    /// Whether a canonical path already has an entry.
    pub fn contains_key(&self, key: &str) -> (r: bool)
        requires
            self.wf(),
        ensures
            r == self@.contains_key(key@),
    {
        match self.lookup(key) {
            Some(_) => true,
            None => false,
        }
    }

    /// Stores the slug list of a canonical path not yet present.
    pub fn insert(&mut self, key: String, slugs: Vec<String>)
        requires
            old(self).wf(),
            !old(self)@.contains_key(key@),
        ensures
            final(self).wf(),
            final(self)@ == old(self)@.insert(key@, slugs.deep_view()),
    {
        proof {
            lemma_entries_map_props(self.entries@);
        }
        let ghost pre = self.entries@;
        let ghost kv = key@;
        self.entries.push((key, slugs));
        proof {
            assert(self.entries@.drop_last() =~= pre);
            assert forall|i: int, j: int|
                0 <= i < j < self.entries@.len() implies self.entries@[i].0@
                != self.entries@[j].0@ by {
                if j < self.entries@.len() - 1 {
                    assert(pre[i].0@ != pre[j].0@);
                } else {
                    assert(self.entries@[i].0@ == pre[i].0@);
                    assert(!(exists|m: int| 0 <= m < pre.len() && pre[m].0@ == kv));
                }
            }
        }
    }
}

/// One local inline link awaiting its filesystem answers: the file it stands
/// in, its 1-based line, and the classified target.
pub struct LinkJob {
    pub file: String,
    pub line: usize,
    pub target: LinkTarget,
}

/// The specification-level shape of a `LinkJob`.
pub struct JobView {
    pub file: Seq<char>,
    pub line: int,
    pub target: LinkTargetView,
}

impl View for LinkJob {
    type V = JobView;

    open spec fn view(&self) -> JobView {
        JobView { file: self.file@, line: self.line as int, target: self.target@ }
    }
}

impl DeepView for LinkJob {
    type V = JobView;

    open spec fn deep_view(&self) -> JobView {
        self.view()
    }
}

/// The filesystem's answers about one job's target: the canonical path where
/// the target exists (`None` where it does not), and whether it is a regular
/// file.
pub struct TargetFacts {
    pub canonical: Option<String>,
    pub is_file: bool,
}

/// The specification-level shape of `TargetFacts`.
pub struct TargetFactsView {
    pub canonical: Option<Seq<char>>,
    pub is_file: bool,
}

impl View for TargetFacts {
    type V = TargetFactsView;

    open spec fn view(&self) -> TargetFactsView {
        TargetFactsView {
            canonical: match self.canonical {
                Some(c) => Some(c@),
                None => None,
            },
            is_file: self.is_file,
        }
    }
}

/// A request to read one target file: the canonical path under which its
/// slugs will be cached.
pub struct SlugNeed {
    pub key: String,
}

impl View for SlugNeed {
    type V = Seq<char>;

    open spec fn view(&self) -> Seq<char> {
        self.key@
    }
}

/// The jobs a file's event stream yields: one per local inline link, in
/// document order, each with the line of its source offset.
pub open spec fn spec_jobs_of(file: Seq<char>, content: Seq<char>, events: Seq<MdEvent>) -> Seq<
    JobView,
>
    decreases events.len(),
{
    if events.len() == 0 {
        Seq::empty()
    } else {
        let p = spec_jobs_of(file, content, events.drop_last());
        match events.last() {
            MdEvent::InlineLink { dest, offset } => match spec_classify(file, dest@) {
                Some(t) => p.push(
                    JobView { file, line: spec_line_of(content, offset as int), target: t },
                ),
                None => p,
            },
            _ => p,
        }
    }
}

/// The jobs of a whole file.
pub open spec fn spec_file_jobs(file: Seq<char>, content: Seq<char>) -> Seq<JobView> {
    spec_jobs_of(file, content, linked_events_of(content))
}

/// The records reported for a file's link references without a definition.
pub open spec fn spec_broken_ref_records(file: Seq<char>, content: Seq<char>) -> Seq<
    BrokenLinkView,
> {
    broken_refs_of(content).map_values(
        |r: BrokenRefView|
            BrokenLinkView {
                file,
                line: spec_line_of(content, r.offset as int),
                error: spec_msg_missing_target(r.reference),
            },
    )
}

/// A record attributed to a job's file and line.
pub open spec fn spec_job_record(job: JobView, error: Seq<char>) -> BrokenLinkView {
    BrokenLinkView { file: job.file, line: job.line, error }
}

/// The record `resolve_link` adds for a job, if any: the target does not
/// exist; or it is no regular file where only file links are allowed; or, for
/// a fragment link, it is no file, or its cached slugs lack the fragment.
pub open spec fn spec_resolve_error(
    options: CheckerOptions,
    job: JobView,
    facts: TargetFactsView,
    cache: Map<Seq<char>, Seq<Seq<char>>>,
) -> Option<BrokenLinkView> {
    match facts.canonical {
        None => Some(spec_job_record(job, spec_msg_not_exist(job.target.display))),
        Some(canon) => if options.disallow_dir_links && !facts.is_file {
            Some(spec_job_record(job, spec_msg_dir_not_allowed(job.target.display)))
        } else if !options.ignore_header_links && job.target.fragment is Some {
            if !facts.is_file {
                Some(spec_job_record(job, spec_msg_not_a_file(job.target.display)))
            } else if cache.contains_key(canon) {
                if cache[canon].contains(job.target.fragment->0) {
                    None
                } else {
                    Some(
                        spec_job_record(
                            job,
                            spec_msg_header_not_found(job.target.fragment->0, job.target.display),
                        ),
                    )
                }
            } else {
                None
            }
        } else {
            None
        },
    }
}

/// The slug request `resolve_link` returns, if any: the canonical path of a
/// fragment link's target file whose slugs are not yet cached.
pub open spec fn spec_resolve_need(
    options: CheckerOptions,
    job: JobView,
    facts: TargetFactsView,
    cache: Map<Seq<char>, Seq<Seq<char>>>,
) -> Option<Seq<char>> {
    match facts.canonical {
        None => None,
        Some(canon) => if !(options.disallow_dir_links && !facts.is_file)
            && !options.ignore_header_links && job.target.fragment is Some && facts.is_file
            && !cache.contains_key(canon) {
            Some(canon)
        } else {
            None
        },
    }
}

/// An optional record as a sequence of zero or one records.
pub open spec fn spec_opt_record(o: Option<BrokenLinkView>) -> Seq<BrokenLinkView> {
    match o {
        Some(r) => seq![r],
        None => Seq::empty(),
    }
}

/// The slugs `finish_link` decides with: the cached list where one exists,
/// else the slugs of the text that was read.
pub open spec fn spec_slugs_for(
    cache: Map<Seq<char>, Seq<Seq<char>>>,
    key: Seq<char>,
    content: Seq<char>,
) -> Seq<Seq<char>> {
    if cache.contains_key(key) {
        cache[key]
    } else {
        spec_slugs_of_events(md_events_of(content))
    }
}

/// The cache after `finish_link`: unchanged where the key was present, else
/// extended by exactly that key.
pub open spec fn spec_cache_after(
    cache: Map<Seq<char>, Seq<Seq<char>>>,
    key: Seq<char>,
    content: Seq<char>,
) -> Map<Seq<char>, Seq<Seq<char>>> {
    if cache.contains_key(key) {
        cache
    } else {
        cache.insert(key, spec_slugs_of_events(md_events_of(content)))
    }
}

/// The record `finish_link` adds, if any: the fragment names no slug of the
/// target.
pub open spec fn spec_finish_error(
    job: JobView,
    key: Seq<char>,
    content: Seq<char>,
    cache: Map<Seq<char>, Seq<Seq<char>>>,
) -> Option<BrokenLinkView> {
    if job.target.fragment is Some && !spec_slugs_for(cache, key, content).contains(
        job.target.fragment->0,
    ) {
        Some(
            spec_job_record(
                job,
                spec_msg_header_not_found(job.target.fragment->0, job.target.display),
            ),
        )
    } else {
        None
    }
}

/// Whether a slug list holds a fragment.
fn contains_slug(slugs: &Vec<String>, frag: &str) -> (r: bool)
    ensures
        r == slugs.deep_view().contains(frag@),
{
    let n: usize = slugs.len();
    let mut i: usize = 0;
    while i < n
        invariant
            0 <= i <= n,
            n == slugs@.len(),
            forall|j: int| 0 <= j < i ==> slugs.deep_view()[j] != frag@,
        decreases n - i,
    {
        if str_eq(slugs[i].as_str(), frag) {
            proof {
                assert(slugs.deep_view()[i as int] == frag@);
            }
            return true;
        }
        i += 1;
    }
    proof {
        assert(forall|j: int| 0 <= j < slugs.deep_view().len() ==> slugs.deep_view()[j] != frag@);
    }
    false
}

/// One scan: its options, the problems found so far, and the slug cache
/// shared across the whole traversal.
pub struct Checker {
    pub options: CheckerOptions,
    pub cache: FileLinksCache,
    pub errors: Vec<DetectedBrokenLink>,
}

impl Checker {
    pub open spec fn wf(&self) -> bool {
        self.cache.wf()
    }

    /// A fresh scan with no findings and an empty cache.
    pub fn new(options: CheckerOptions) -> (c: Checker)
        ensures
            c.wf(),
            c.options == options,
            c.cache@ == Map::<Seq<char>, Seq<Seq<char>>>::empty(),
            c.errors.deep_view() == Seq::<BrokenLinkView>::empty(),
    {
        let c = Checker { options, cache: FileLinksCache::new(), errors: Vec::new() };
        proof {
            assert(c.errors.deep_view() =~= Seq::<BrokenLinkView>::empty());
        }
        c
    }

    /// Starts one file: reports its link references without a definition and
    /// returns one job per local inline link, in document order.  External
    /// targets (URL schemes and e-mail addresses) yield no job.
    pub fn begin_file(&mut self, file: &str, content: &str) -> (jobs: Vec<LinkJob>)
        requires
            old(self).wf(),
            content@.len() < usize::MAX,
        ensures
            final(self).wf(),
            final(self).options == old(self).options,
            final(self).cache@ == old(self).cache@,
            final(self).errors.deep_view() == old(self).errors.deep_view()
                + spec_broken_ref_records(file@, content@),
            jobs.deep_view() == spec_file_jobs(file@, content@),
    {
        let (events, refs) = parse_events_with_broken_refs(content);
        let ghost records = spec_broken_ref_records(file@, content@);
        let ghost pre_errors = self.errors.deep_view();
        let rn: usize = refs.len();
        let mut i: usize = 0;
        proof {
            assert(refs.deep_view().len() == rn);
            assert(self.errors.deep_view() =~= pre_errors + records.take(0));
        }
        while i < rn
            invariant
                0 <= i <= rn,
                rn == refs@.len(),
                refs.deep_view() == broken_refs_of(content@),
                records == spec_broken_ref_records(file@, content@),
                content@.len() < usize::MAX,
                self.wf(),
                self.options == old(self).options,
                self.cache@ == old(self).cache@,
                self.cache.wf() == old(self).cache.wf(),
                self.errors.deep_view() == pre_errors + records.take(i as int),
            decreases rn - i,
        {
            let ghost prev = self.errors.deep_view();
            let line = line_of_offset(content, refs[i].offset);
            let msg = msg_missing_target(refs[i].reference.as_str());
            self.errors.push(DetectedBrokenLink { file: file.to_owned(), line, error: msg });
            proof {
                assert(refs.deep_view()[i as int] == refs@[i as int]@);
                assert(records[i as int] == BrokenLinkView {
                    file: file@,
                    line: spec_line_of(content@, refs@[i as int]@.offset as int),
                    error: spec_msg_missing_target(refs@[i as int]@.reference),
                });
                assert(self.errors.deep_view() =~= prev.push(records[i as int]));
                assert(records.take(i + 1) =~= records.take(i as int).push(records[i as int]));
            }
            i += 1;
        }
        proof {
            assert(records.take(rn as int) =~= records);
        }
        let mut jobs: Vec<LinkJob> = Vec::new();
        let en: usize = events.len();
        let mut k: usize = 0;
        proof {
            assert(events@.take(0) =~= Seq::<MdEvent>::empty());
            assert(jobs.deep_view() =~= spec_jobs_of(file@, content@, events@.take(0)));
        }
        while k < en
            invariant
                0 <= k <= en,
                en == events@.len(),
                events@ == linked_events_of(content@),
                content@.len() < usize::MAX,
                self.wf(),
                self.options == old(self).options,
                self.cache@ == old(self).cache@,
                self.cache.wf() == old(self).cache.wf(),
                self.errors.deep_view() == pre_errors + spec_broken_ref_records(file@, content@),
                jobs.deep_view() == spec_jobs_of(file@, content@, events@.take(k as int)),
            decreases en - k,
        {
            let ghost prev_jobs = jobs.deep_view();
            proof {
                assert(events@.take(k + 1).drop_last() =~= events@.take(k as int));
                assert(events@.take(k + 1).last() == events@[k as int]);
            }
            match &events[k] {
                MdEvent::InlineLink { dest, offset } => {
                    match classify_link(file, dest.as_str()) {
                        Some(target) => {
                            let line = line_of_offset(content, *offset);
                            jobs.push(LinkJob { file: file.to_owned(), line, target });
                            proof {
                                assert(jobs.deep_view() =~= prev_jobs.push(
                                    spec_jobs_of(file@, content@, events@.take(k + 1)).last(),
                                ));
                                assert(jobs.deep_view() =~= spec_jobs_of(
                                    file@,
                                    content@,
                                    events@.take(k + 1),
                                ));
                            }
                        },
                        None => {
                            proof {
                                assert(jobs.deep_view() =~= spec_jobs_of(
                                    file@,
                                    content@,
                                    events@.take(k + 1),
                                ));
                            }
                        },
                    }
                },
                _ => {
                    proof {
                        assert(jobs.deep_view() =~= spec_jobs_of(
                            file@,
                            content@,
                            events@.take(k + 1),
                        ));
                    }
                },
            }
            k += 1;
        }
        proof {
            assert(events@.take(en as int) =~= events@);
        }
        jobs
    }

    /// Decides one job from the filesystem's answers.  Where the target
    /// exists, is a file, carries a fragment that must be checked, and its
    /// slugs are not yet cached, the call returns the canonical path to read;
    /// every other case is settled here, a record added where the link is
    /// broken or invalid.
    pub fn resolve_link(&mut self, job: &LinkJob, facts: &TargetFacts) -> (need: Option<SlugNeed>)
        requires
            old(self).wf(),
        ensures
            final(self).wf(),
            final(self).options == old(self).options,
            final(self).cache@ == old(self).cache@,
            final(self).errors.deep_view() == old(self).errors.deep_view() + spec_opt_record(
                spec_resolve_error(old(self).options, job@, facts@, old(self).cache@),
            ),
            match need {
                Some(n) => spec_resolve_need(old(self).options, job@, facts@, old(self).cache@)
                    == Some(n@),
                None => spec_resolve_need(old(self).options, job@, facts@, old(self).cache@)
                    is None,
            },
    {
        let ghost prev = self.errors.deep_view();
        match &facts.canonical {
            None => {
                let msg = msg_not_exist(job.target.display.as_str());
                self.errors.push(
                    DetectedBrokenLink { file: job.file.clone(), line: job.line, error: msg },
                );
                proof {
                    assert(self.errors.deep_view() =~= prev + spec_opt_record(
                        spec_resolve_error(self.options, job@, facts@, self.cache@),
                    ));
                }
                None
            },
            Some(canon) => {
                if self.options.disallow_dir_links && !facts.is_file {
                    let msg = msg_dir_not_allowed(job.target.display.as_str());
                    self.errors.push(
                        DetectedBrokenLink { file: job.file.clone(), line: job.line, error: msg },
                    );
                    proof {
                        assert(self.errors.deep_view() =~= prev + spec_opt_record(
                            spec_resolve_error(self.options, job@, facts@, self.cache@),
                        ));
                    }
                    return None;
                }
                if !self.options.ignore_header_links {
                    match &job.target.fragment {
                        Some(frag) => {
                            if !facts.is_file {
                                let msg = msg_not_a_file(job.target.display.as_str());
                                self.errors.push(
                                    DetectedBrokenLink {
                                        file: job.file.clone(),
                                        line: job.line,
                                        error: msg,
                                    },
                                );
                                proof {
                                    assert(self.errors.deep_view() =~= prev + spec_opt_record(
                                        spec_resolve_error(
                                            self.options,
                                            job@,
                                            facts@,
                                            self.cache@,
                                        ),
                                    ));
                                }
                                return None;
                            }
                            match self.cache.lookup(canon.as_str()) {
                                Some(slugs) => {
                                    if !contains_slug(slugs, frag.as_str()) {
                                        let msg = msg_header_not_found(
                                            frag.as_str(),
                                            job.target.display.as_str(),
                                        );
                                        self.errors.push(
                                            DetectedBrokenLink {
                                                file: job.file.clone(),
                                                line: job.line,
                                                error: msg,
                                            },
                                        );
                                        proof {
                                            assert(self.errors.deep_view() =~= prev
                                                + spec_opt_record(
                                                spec_resolve_error(
                                                    self.options,
                                                    job@,
                                                    facts@,
                                                    self.cache@,
                                                ),
                                            ));
                                        }
                                    } else {
                                        proof {
                                            assert(self.errors.deep_view() =~= prev
                                                + spec_opt_record(
                                                spec_resolve_error(
                                                    self.options,
                                                    job@,
                                                    facts@,
                                                    self.cache@,
                                                ),
                                            ));
                                        }
                                    }
                                    None
                                },
                                None => {
                                    proof {
                                        assert(self.errors.deep_view() =~= prev + spec_opt_record(
                                            spec_resolve_error(
                                                self.options,
                                                job@,
                                                facts@,
                                                self.cache@,
                                            ),
                                        ));
                                    }
                                    Some(SlugNeed { key: canon.clone() })
                                },
                            }
                        },
                        None => {
                            proof {
                                assert(self.errors.deep_view() =~= prev + spec_opt_record(
                                    spec_resolve_error(self.options, job@, facts@, self.cache@),
                                ));
                            }
                            None
                        },
                    }
                } else {
                    proof {
                        assert(self.errors.deep_view() =~= prev + spec_opt_record(
                            spec_resolve_error(self.options, job@, facts@, self.cache@),
                        ));
                    }
                    None
                }
            },
        }
    }

    /// Completes a job whose target's slugs `resolve_link` asked for: caches
    /// the slugs of the text that was read, unless an entry appeared already,
    /// and records an error where the fragment names no slug of the target.
    pub fn finish_link(&mut self, job: &LinkJob, need: &SlugNeed, content: &str)
        requires
            old(self).wf(),
            job.target.fragment is Some,
        ensures
            final(self).wf(),
            final(self).options == old(self).options,
            final(self).cache@ == spec_cache_after(old(self).cache@, need@, content@),
            final(self).errors.deep_view() == old(self).errors.deep_view() + spec_opt_record(
                spec_finish_error(job@, need@, content@, old(self).cache@),
            ),
    {
        let ghost prev = self.errors.deep_view();
        let ghost pre_cache = self.cache@;
        let frag = match &job.target.fragment {
            Some(f) => f,
            None => {
                proof {
                    assert(false);
                }
                return ;
            },
        };
        if !self.cache.contains_key(need.key.as_str()) {
            let slugs = generate_slugs(content);
            self.cache.insert(need.key.clone(), slugs);
        }
        let slugs = match self.cache.lookup(need.key.as_str()) {
            Some(v) => v,
            None => {
                proof {
                    assert(false);
                }
                return ;
            },
        };
        proof {
            assert(slugs.deep_view() == spec_slugs_for(pre_cache, need@, content@));
        }
        if !contains_slug(slugs, frag.as_str()) {
            let msg = msg_header_not_found(frag.as_str(), job.target.display.as_str());
            self.errors.push(
                DetectedBrokenLink { file: job.file.clone(), line: job.line, error: msg },
            );
            proof {
                assert(self.errors.deep_view() =~= prev + spec_opt_record(
                    spec_finish_error(job@, need@, content@, pre_cache),
                ));
            }
        } else {
            proof {
                assert(self.errors.deep_view() =~= prev + spec_opt_record(
                    spec_finish_error(job@, need@, content@, pre_cache),
                ));
            }
        }
    }

    /// Ends the scan: success where nothing was found, else the complete
    /// ordered list of the problems.
    pub fn into_result(self) -> (r: Result<(), CheckerError>)
        ensures
            self.errors@.len() == 0 ==> r == Result::<(), CheckerError>::Ok(()),
            self.errors@.len() > 0 ==> r == Result::<(), CheckerError>::Err(
                CheckerError::BrokenLinks(self.errors),
            ),
    {
        if self.errors.len() == 0 {
            Ok(())
        } else {
            Err(CheckerError::BrokenLinks(self.errors))
        }
    }
}

/// Slug extraction is requested only for a target whose canonical path has no
/// cache entry: once a path is cached, no later link to it asks again.
pub proof fn lemma_slugs_fetched_once(
    options: CheckerOptions,
    job: JobView,
    facts: TargetFactsView,
    cache: Map<Seq<char>, Seq<Seq<char>>>,
    key: Seq<char>,
)
    requires
        cache.contains_key(key),
    ensures
        spec_resolve_need(options, job, facts, cache) != Some(key),
{
}

/// One entry of a directory listing, as the filesystem reports it: its path
/// and whether it is a directory or a regular file.
pub struct EntryInfo {
    pub path: String,
    pub is_dir: bool,
    pub is_file: bool,
}

/// The specification-level shape of an `EntryInfo`.
pub struct EntryInfoView {
    pub path: Seq<char>,
    pub is_dir: bool,
    pub is_file: bool,
}

impl View for EntryInfo {
    type V = EntryInfoView;

    open spec fn view(&self) -> EntryInfoView {
        EntryInfoView { path: self.path@, is_dir: self.is_dir, is_file: self.is_file }
    }
}

impl DeepView for EntryInfo {
    type V = EntryInfoView;

    open spec fn deep_view(&self) -> EntryInfoView {
        self.view()
    }
}

/// What the traversal does with one directory entry.
pub enum WalkAction {
    /// A subdirectory: walk it recursively.
    Recurse(String),
    /// A Markdown file: check it.
    CheckFile(String),
    /// Anything else: leave it alone.
    Skip,
}

/// The specification-level shape of a `WalkAction`.
pub enum WalkActionView {
    Recurse(Seq<char>),
    CheckFile(Seq<char>),
    Skip,
}

impl View for WalkAction {
    type V = WalkActionView;

    open spec fn view(&self) -> WalkActionView {
        match self {
            WalkAction::Recurse(p) => WalkActionView::Recurse(p@),
            WalkAction::CheckFile(p) => WalkActionView::CheckFile(p@),
            WalkAction::Skip => WalkActionView::Skip,
        }
    }
}

impl DeepView for WalkAction {
    type V = WalkActionView;

    open spec fn deep_view(&self) -> WalkActionView {
        self.view()
    }
}

/// The final component of a path, empty where the path has none.
pub open spec fn spec_file_name(path: Seq<char>) -> Seq<char> {
    let comps = spec_components(path);
    if comps.len() > 0 {
        comps.last()
    } else {
        Seq::empty()
    }
}

/// The extension of a file name: what follows its last `.`, provided that dot
/// is not the leading character.
pub open spec fn spec_extension(name: Seq<char>) -> Option<Seq<char>> {
    match spec_rfind_char(name, '.') {
        Some(i) => if i > 0 {
            Some(name.skip(i + 1))
        } else {
            None
        },
        None => None,
    }
}

/// Whether a path names a Markdown file: its extension, lowercased, is `md`.
pub open spec fn spec_is_md_path(path: Seq<char>) -> bool {
    match spec_extension(spec_file_name(path)) {
        Some(e) => spec_lower(e) == "md"@,
        None => false,
    }
}

/// Decides whether a path carries the Markdown extension, case-insensitively.
pub fn is_md_path(path: &str) -> (r: bool)
    ensures
        r == spec_is_md_path(path@),
{
    let (_, comps) = split_components(path);
    let m: usize = comps.len();
    if m == 0 {
        return false;
    }
    let name: &String = &comps[m - 1];
    proof {
        assert(name@ == comps.deep_view().last());
        assert(name@ == spec_file_name(path@));
    }
    match rfind_char(name.as_str(), '.') {
        None => false,
        Some(i) => {
            if i == 0 {
                false
            } else {
                let nn: usize = name.as_str().unicode_len();
                let ext = name.as_str().substring_char(i + 1, nn);
                proof {
                    assert(ext@ =~= name@.skip(i + 1));
                }
                let lowered = lower_str(ext);
                str_eq(lowered.as_str(), "md")
            }
        },
    }
}

/// What the traversal does with one entry: a directory is recursed into, a
/// regular file with the Markdown extension is checked, everything else is
/// skipped.
pub open spec fn spec_entry_action(e: EntryInfoView) -> WalkActionView {
    if e.is_dir {
        WalkActionView::Recurse(e.path)
    } else if e.is_file && spec_is_md_path(e.path) {
        WalkActionView::CheckFile(e.path)
    } else {
        WalkActionView::Skip
    }
}

/// Plans the check of one directory from its listing: one action per entry,
/// in the listing's order.  The caller walks each planned subdirectory the
/// same way and runs the checker on each planned file, so the subtree's
/// records are concatenated in traversal order; a listing that cannot be
/// read is fatal on the caller's side and yields no plan at all.
pub fn check_broken_links_in_dir(entries: &Vec<EntryInfo>) -> (plan: Vec<WalkAction>)
    ensures
        plan.deep_view() == entries.deep_view().map_values(
            |e: EntryInfoView| spec_entry_action(e),
        ),
{
    let n: usize = entries.len();
    let mut plan: Vec<WalkAction> = Vec::new();
    let mut i: usize = 0;
    proof {
        assert(plan.deep_view() =~= entries.deep_view().take(0).map_values(
            |e: EntryInfoView| spec_entry_action(e),
        ));
    }
    while i < n
        invariant
            0 <= i <= n,
            n == entries@.len(),
            plan.deep_view() == entries.deep_view().take(i as int).map_values(
                |e: EntryInfoView| spec_entry_action(e),
            ),
        decreases n - i,
    {
        let ghost prev = plan.deep_view();
        let e = &entries[i];
        if e.is_dir {
            plan.push(WalkAction::Recurse(e.path.clone()));
        } else if e.is_file && is_md_path(e.path.as_str()) {
            plan.push(WalkAction::CheckFile(e.path.clone()));
        } else {
            plan.push(WalkAction::Skip);
        }
        proof {
            assert(plan.deep_view() =~= prev.push(spec_entry_action(entries.deep_view()[
                i as int
            ])));
            assert(plan.deep_view() =~= entries.deep_view().take(i + 1).map_values(
                |ev: EntryInfoView| spec_entry_action(ev),
            ));
        }
        i += 1;
    }
    proof {
        assert(entries.deep_view().take(n as int) =~= entries.deep_view());
    }
    plan
}

/// The cache only grows: `finish_link` keeps every entry as it was and leaves
/// the requested path cached, so the answer a later lookup gets is the one
/// that was stored first.
pub proof fn lemma_cache_append_only(
    cache: Map<Seq<char>, Seq<Seq<char>>>,
    key: Seq<char>,
    content: Seq<char>,
)
    ensures
        spec_cache_after(cache, key, content).contains_key(key),
        forall|k: Seq<char>|
            cache.contains_key(k) ==> spec_cache_after(cache, key, content).contains_key(k)
                && spec_cache_after(cache, key, content)[k] == cache[k],
{
}

} // verus!
