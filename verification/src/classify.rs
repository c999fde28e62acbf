//! Change classifications and their precedence order.

use vstd::prelude::*;

use crate::conventional::{conv_parse, parse_conventional, ConventionalParts};

verus! {

/// What a range of commits asks of the next version. `Major` strictly
/// dominates `Minor`, which dominates `Patch`, which dominates `NoChange`.
#[derive(Clone, Copy, Debug, PartialEq, Eq, Structural)]
pub enum Classification {
    NoChange,
    Patch,
    Minor,
    Major,
}

impl Classification {
    /// Position in the precedence order, low to high.
    pub open spec fn rank(self) -> int {
        match self {
            Classification::NoChange => 0,
            Classification::Patch => 1,
            Classification::Minor => 2,
            Classification::Major => 3,
        }
    }
}

/// The stronger of two classifications.
pub open spec fn spec_combine(a: Classification, b: Classification) -> Classification {
    if a.rank() >= b.rank() {
        a
    } else {
        b
    }
}

/// Combine two classifications, keeping the dominant one.
pub fn combine(a: Classification, b: Classification) -> (r: Classification)
    ensures
        r == spec_combine(a, b),
{
    let ra: u64 = match a {
        Classification::NoChange => 0,
        Classification::Patch => 1,
        Classification::Minor => 2,
        Classification::Major => 3,
    };
    let rb: u64 = match b {
        Classification::NoChange => 0,
        Classification::Patch => 1,
        Classification::Minor => 2,
        Classification::Major => 3,
    };
    if ra >= rb {
        a
    } else {
        b
    }
}


/// The parsed header of a conventional commit message: a type token, an
/// optional scope, and whether the commit is marked breaking.
pub struct ConvHeader {
    pub ty: Seq<char>,
    pub scope: Option<Seq<char>>,
    pub breaking: bool,
}

/// The classification key of a parsed commit: `type`, `type(scope)`, with
/// a trailing `!` when the commit is marked breaking.
pub open spec fn spec_key(h: ConvHeader) -> Seq<char> {
    h.ty + (match h.scope {
        Some(sc) => seq!['('] + sc + seq![')'],
        None => Seq::<char>::empty(),
    }) + (if h.breaking {
        seq!['!']
    } else {
        Seq::<char>::empty()
    })
}

/// Whether `k` occurs among the configured type labels.
pub open spec fn spec_contains_str(labels: Seq<Seq<char>>, k: Seq<char>) -> bool {
    exists|i: int| 0 <= i < labels.len() && labels[i] == k
}

/// The classification of one parsed commit: a breaking marker, or a key in
/// the major set, forces `Major`; otherwise the minor and patch sets are
/// consulted in turn; an unparsed message or an unknown key contributes
/// nothing.
pub open spec fn spec_classify(
    p: Option<ConvHeader>,
    majors: Seq<Seq<char>>,
    minors: Seq<Seq<char>>,
    patches: Seq<Seq<char>>,
) -> Classification {
    match p {
        None => Classification::NoChange,
        Some(h) => {
            let key = spec_key(h);
            if h.breaking || spec_contains_str(majors, key) {
                Classification::Major
            } else if spec_contains_str(minors, key) {
                Classification::Minor
            } else if spec_contains_str(patches, key) {
                Classification::Patch
            } else {
                Classification::NoChange
            }
        },
    }
}

/// Whether `p` is a prefix of `f`.
pub open spec fn spec_is_prefix(p: Seq<u8>, f: Seq<u8>) -> bool {
    p.len() <= f.len() && f.take(p.len() as int) == p
}

/// Whether some changed file lies under the scoped sub-path.
pub open spec fn spec_touches(files: Seq<Seq<u8>>, path: Seq<u8>) -> bool {
    exists|i: int| 0 <= i < files.len() && spec_is_prefix(path, files[i])
}

/// What the walk reads of one commit: how many parents it has, which
/// files it changed against its first parent, and its message (`None`
/// where the message is not valid text).
pub struct CommitRecord {
    pub parent_count: u64,
    pub files: Vec<Vec<u8>>,
    pub message: Option<String>,
}

/// The ghost image of a commit record.
pub struct RecView {
    pub parent_count: int,
    pub files: Seq<Seq<u8>>,
    pub message: Option<Seq<char>>,
}

impl View for CommitRecord {
    type V = RecView;

    open spec fn view(&self) -> RecView {
        RecView {
            parent_count: self.parent_count as int,
            files: self.files.deep_view(),
            message: match self.message {
                Some(m) => Some(m@),
                None => None,
            },
        }
    }
}

impl DeepView for CommitRecord {
    type V = RecView;

    open spec fn deep_view(&self) -> RecView {
        self@
    }
}

/// Whether one byte string begins with another.
pub fn bytes_is_prefix(p: &Vec<u8>, f: &Vec<u8>) -> (r: bool)
    ensures
        r == spec_is_prefix(p.deep_view(), f.deep_view()),
{
    let np = p.len();
    if np > f.len() {
        return false;
    }
    let mut k: usize = 0;
    while k < np
        invariant
            k <= np,
            np == p@.len(),
            np <= f@.len(),
            forall|q: int| 0 <= q < k ==> p@[q] == f@[q],
        decreases np - k,
    {
        if p[k] != f[k] {
            proof {
                assert(f.deep_view().take(np as int)[k as int] == f@[k as int]);
                assert(p.deep_view()[k as int] == p@[k as int]);
            }
            return false;
        }
        k = k + 1;
    }
    proof {
        assert(f.deep_view().take(np as int) =~= p.deep_view());
    }
    true
}

/// Whether a changed-file entry lies outside the scoped sub-path.
pub fn is_not_file_on_path(line: &Vec<u8>, path: &Vec<u8>) -> (r: bool)
    ensures
        r == !spec_is_prefix(path.deep_view(), line.deep_view()),
{
    !bytes_is_prefix(path, line)
}

/// Whether any changed file of a commit lies under the scoped sub-path.
pub fn touches_path(files: &Vec<Vec<u8>>, path: &Vec<u8>) -> (r: bool)
    ensures
        r == spec_touches(files.deep_view(), path.deep_view()),
{
    let n = files.len();
    let mut i: usize = 0;
    while i < n
        invariant
            i <= n,
            n == files@.len(),
            forall|q: int|
                0 <= q < i ==> !spec_is_prefix(path.deep_view(), files.deep_view()[q]),
        decreases n - i,
    {
        if bytes_is_prefix(path, &files[i]) {
            proof {
                assert(spec_is_prefix(path.deep_view(), files.deep_view()[i as int]));
            }
            return true;
        }
        i = i + 1;
    }
    false
}

/// Whether `key` occurs among the configured labels.
pub fn contains_label(labels: &Vec<String>, key: &str) -> (r: bool)
    ensures
        r == spec_contains_str(labels.deep_view(), key@),
{
    let n = labels.len();
    let mut i: usize = 0;
    while i < n
        invariant
            i <= n,
            n == labels@.len(),
            forall|q: int| 0 <= q < i ==> labels.deep_view()[q] != key@,
        decreases n - i,
    {
        if crate::template::eq_str(labels[i].as_str(), key) {
            proof {
                assert(labels.deep_view()[i as int] == key@);
            }
            return true;
        }
        i = i + 1;
    }
    false
}

/// Classify one parsed commit against the configured type sets.
pub fn classify_parts(
    parts: &Option<ConventionalParts>,
    majors: &Vec<String>,
    minors: &Vec<String>,
    patches: &Vec<String>,
) -> (c: Classification)
    ensures
        (c == spec_classify(
            match *parts {
                Some(p) => Some(p@),
                None => None,
            },
            majors.deep_view(),
            minors.deep_view(),
            patches.deep_view(),
        )),
{
    match parts {
        None => Classification::NoChange,
        Some(p) => {
            let mut key = crate::template::to_chars(p.type_label.as_str());
            match &p.scope {
                Some(sc) => {
                    key.push('(');
                    let scc = crate::template::to_chars(sc.as_str());
                    crate::template::push_all(&mut key, &scc);
                    key.push(')');
                },
                None => {},
            }
            if p.breaking {
                key.push('!');
            }
            proof {
                assert(key@ =~= spec_key(p@));
            }
            let key_string = crate::template::chars_to_string(&key);
            if p.breaking || contains_label(majors, key_string.as_str()) {
                Classification::Major
            } else if contains_label(minors, key_string.as_str()) {
                Classification::Minor
            } else if contains_label(patches, key_string.as_str()) {
                Classification::Patch
            } else {
                Classification::NoChange
            }
        },
    }
}

/// Parse a commit message and classify it against the configured sets.
pub fn classify_message(
    msg: &str,
    majors: &Vec<String>,
    minors: &Vec<String>,
    patches: &Vec<String>,
) -> (c: Classification)
    ensures
        (c == spec_classify(
            conv_parse(msg@),
            majors.deep_view(),
            minors.deep_view(),
            patches.deep_view(),
        )),
{
    let parts = parse_conventional(msg);
    classify_parts(&parts, majors, minors, patches)
}

/// The classification that a sequence of commit records accumulates, most
/// recent first, starting from `acc`.
///
/// A `Major` commit ends the walk at once. A commit with a parent whose
/// changed files all lie outside `path` is skipped. A parentless commit is
/// classified without the path filter, and in an unbounded walk (no tag
/// below it) it also ends the walk; a bounded walk continues past it. The
/// result is `None` where a visited commit's message could not be read.
pub open spec fn spec_walk(
    recs: Seq<RecView>,
    path: Seq<u8>,
    bounded: bool,
    majors: Seq<Seq<char>>,
    minors: Seq<Seq<char>>,
    patches: Seq<Seq<char>>,
    acc: Classification,
) -> Option<Classification>
    decreases recs.len(),
{
    if recs.len() == 0 {
        Some(acc)
    } else {
        let r = recs[0];
        if r.parent_count == 0 {
            match r.message {
                None => None,
                Some(m) => {
                    let c = spec_classify(conv_parse(m), majors, minors, patches);
                    if c == Classification::Major {
                        Some(Classification::Major)
                    } else if !bounded {
                        Some(spec_combine(acc, c))
                    } else {
                        spec_walk(
                            recs.skip(1),
                            path,
                            bounded,
                            majors,
                            minors,
                            patches,
                            spec_combine(acc, c),
                        )
                    }
                },
            }
        } else if !spec_touches(r.files, path) {
            spec_walk(recs.skip(1), path, bounded, majors, minors, patches, acc)
        } else {
            match r.message {
                None => None,
                Some(m) => {
                    let c = spec_classify(conv_parse(m), majors, minors, patches);
                    if c == Classification::Major {
                        Some(Classification::Major)
                    } else {
                        spec_walk(
                            recs.skip(1),
                            path,
                            bounded,
                            majors,
                            minors,
                            patches,
                            spec_combine(acc, c),
                        )
                    }
                },
            }
        }
    }
}

/// What one step of the walk decides.
pub enum WalkStep {
    /// The walk ends here with this final classification.
    Done(Classification),
    /// The walk goes on with this accumulated classification.
    Continue(Classification),
    /// The commit's message could not be read; the walk fails.
    Unreadable,
}

/// Process one commit record of the walk.
pub fn walk_step(
    rec: &CommitRecord,
    path: &Vec<u8>,
    bounded: bool,
    majors: &Vec<String>,
    minors: &Vec<String>,
    patches: &Vec<String>,
    acc: Classification,
) -> (s: WalkStep)
    ensures
        forall|rest: Seq<RecView>|
            spec_walk(
                seq![rec@] + rest,
                path.deep_view(),
                bounded,
                majors.deep_view(),
                minors.deep_view(),
                patches.deep_view(),
                acc,
            ) == (match s {
                WalkStep::Done(c) => Some(c),
                WalkStep::Continue(a) => spec_walk(
                    rest,
                    path.deep_view(),
                    bounded,
                    majors.deep_view(),
                    minors.deep_view(),
                    patches.deep_view(),
                    a,
                ),
                WalkStep::Unreadable => None,
            }),
{
    proof {
        assert(forall|rest: Seq<RecView>| (seq![rec@] + rest)[0] == rec@);
        assert(forall|rest: Seq<RecView>| (seq![rec@] + rest).skip(1) =~= rest);
    }
    if rec.parent_count == 0 {
        match &rec.message {
            None => WalkStep::Unreadable,
            Some(m) => {
                let c = classify_message(m.as_str(), majors, minors, patches);
                if matches!(c, Classification::Major) {
                    WalkStep::Done(Classification::Major)
                } else if !bounded {
                    WalkStep::Done(combine(acc, c))
                } else {
                    WalkStep::Continue(combine(acc, c))
                }
            },
        }
    } else if !touches_path(&rec.files, path) {
        WalkStep::Continue(acc)
    } else {
        match &rec.message {
            None => WalkStep::Unreadable,
            Some(m) => {
                let c = classify_message(m.as_str(), majors, minors, patches);
                if matches!(c, Classification::Major) {
                    WalkStep::Done(Classification::Major)
                } else {
                    WalkStep::Continue(combine(acc, c))
                }
            },
        }
    }
}

/// Classify a whole list of commit records, most recent first.
pub fn classify_commit_list(
    recs: &Vec<CommitRecord>,
    path: &Vec<u8>,
    bounded: bool,
    majors: &Vec<String>,
    minors: &Vec<String>,
    patches: &Vec<String>,
) -> (r: Option<Classification>)
    ensures
        (r == spec_walk(
            recs.deep_view(),
            path.deep_view(),
            bounded,
            majors.deep_view(),
            minors.deep_view(),
            patches.deep_view(),
            Classification::NoChange,
        )),
{
    let ghost whole = recs.deep_view();
    let n = recs.len();
    let mut acc = Classification::NoChange;
    let mut i: usize = 0;
    proof {
        assert(whole.skip(0) =~= whole);
    }
    while i < n
        invariant
            i <= n,
            n == recs@.len(),
            whole == recs.deep_view(),
            whole.len() == n,
            spec_walk(
                whole,
                path.deep_view(),
                bounded,
                majors.deep_view(),
                minors.deep_view(),
                patches.deep_view(),
                Classification::NoChange,
            ) == spec_walk(
                whole.skip(i as int),
                path.deep_view(),
                bounded,
                majors.deep_view(),
                minors.deep_view(),
                patches.deep_view(),
                acc,
            ),
        decreases n - i,
    {
        let step = walk_step(&recs[i], path, bounded, majors, minors, patches, acc);
        proof {
            assert(seq![recs.deep_view()[i as int]] + whole.skip(i + 1 as int) =~= whole.skip(
                i as int,
            ));
        }
        match step {
            WalkStep::Done(c) => {
                return Some(c);
            },
            WalkStep::Continue(a) => {
                acc = a;
            },
            WalkStep::Unreadable => {
                return None;
            },
        }
        i = i + 1;
    }
    proof {
        assert(whole.skip(n as int) =~= Seq::<RecView>::empty());
    }
    Some(acc)
}

/// The precedence law: if any commit that the walk visits and classifies
/// is `Major`, the walk's final classification is `Major`, whatever other
/// commits the range holds. Commit `i` is visited when no earlier record
/// ends the walk (in a bounded walk nothing short of `Major` does; in an
/// unbounded one a parentless commit does), and it is classified when it
/// is parentless or touches the scoped path, and its message reads as a
/// `Major` conventional commit.
pub proof fn lemma_major_dominates(
    recs: Seq<RecView>,
    path: Seq<u8>,
    bounded: bool,
    majors: Seq<Seq<char>>,
    minors: Seq<Seq<char>>,
    patches: Seq<Seq<char>>,
    acc: Classification,
    i: int,
)
    requires
        0 <= i < recs.len(),
        forall|j: int| 0 <= j < i ==> bounded || recs[j].parent_count != 0,
        recs[i].parent_count == 0 || spec_touches(recs[i].files, path),
        recs[i].message is Some,
        spec_classify(conv_parse(recs[i].message.unwrap()), majors, minors, patches)
            == Classification::Major,
        spec_walk(recs, path, bounded, majors, minors, patches, acc) is Some,
    ensures
        spec_walk(recs, path, bounded, majors, minors, patches, acc) == Some(
            Classification::Major,
        ),
    decreases i,
{
    let r = recs[0];
    if i == 0 {
    } else {
        assert(recs.skip(1)[i - 1] == recs[i]);
        assert(forall|j: int| 0 <= j < i - 1 ==> bounded || recs.skip(1)[j].parent_count != 0);
        if r.parent_count == 0 {
            match r.message {
                None => {},
                Some(m) => {
                    let c = spec_classify(conv_parse(m), majors, minors, patches);
                    if c == Classification::Major {
                    } else {
                        lemma_major_dominates(
                            recs.skip(1),
                            path,
                            bounded,
                            majors,
                            minors,
                            patches,
                            spec_combine(acc, c),
                            i - 1,
                        );
                    }
                },
            }
        } else if !spec_touches(r.files, path) {
            lemma_major_dominates(recs.skip(1), path, bounded, majors, minors, patches, acc, i - 1);
        } else {
            match r.message {
                None => {},
                Some(m) => {
                    let c = spec_classify(conv_parse(m), majors, minors, patches);
                    if c == Classification::Major {
                    } else {
                        lemma_major_dominates(
                            recs.skip(1),
                            path,
                            bounded,
                            majors,
                            minors,
                            patches,
                            spec_combine(acc, c),
                            i - 1,
                        );
                    }
                },
            }
        }
    }
}

/// The path-filter exclusion law: a commit with a parent whose changed
/// files all lie outside the scoped path has no influence on the walk: the
/// walk of the range with that record removed ends the same way, whatever
/// its message says.
pub proof fn lemma_path_filter_excludes(
    recs: Seq<RecView>,
    path: Seq<u8>,
    bounded: bool,
    majors: Seq<Seq<char>>,
    minors: Seq<Seq<char>>,
    patches: Seq<Seq<char>>,
    acc: Classification,
    i: int,
)
    requires
        0 <= i < recs.len(),
        recs[i].parent_count != 0,
        !spec_touches(recs[i].files, path),
    ensures
        spec_walk(recs, path, bounded, majors, minors, patches, acc) == spec_walk(
            recs.remove(i),
            path,
            bounded,
            majors,
            minors,
            patches,
            acc,
        ),
    decreases i,
{
    if i == 0 {
        assert(recs.remove(0) =~= recs.skip(1));
    } else {
        let r = recs[0];
        assert(recs.remove(i)[0] == r);
        assert(recs.remove(i).skip(1) =~= recs.skip(1).remove(i - 1));
        assert(recs.skip(1)[i - 1] == recs[i]);
        if r.parent_count == 0 {
            match r.message {
                None => {},
                Some(m) => {
                    let c = spec_classify(conv_parse(m), majors, minors, patches);
                    if c == Classification::Major {
                    } else if !bounded {
                    } else {
                        lemma_path_filter_excludes(
                            recs.skip(1),
                            path,
                            bounded,
                            majors,
                            minors,
                            patches,
                            spec_combine(acc, c),
                            i - 1,
                        );
                    }
                },
            }
        } else if !spec_touches(r.files, path) {
            lemma_path_filter_excludes(
                recs.skip(1),
                path,
                bounded,
                majors,
                minors,
                patches,
                acc,
                i - 1,
            );
        } else {
            match r.message {
                None => {},
                Some(m) => {
                    let c = spec_classify(conv_parse(m), majors, minors, patches);
                    if c == Classification::Major {
                    } else {
                        lemma_path_filter_excludes(
                            recs.skip(1),
                            path,
                            bounded,
                            majors,
                            minors,
                            patches,
                            spec_combine(acc, c),
                            i - 1,
                        );
                    }
                },
            }
        }
    }
}
} // verus!
