//! The version resolution engine: tag scanning, commit-range
//! classification, and the increment that produces the next version.

use vstd::prelude::*;
use vstd::string::StrSliceExecFns;

use crate::classify::{walk_step, Classification, CommitRecord, WalkStep};
use crate::errors::EngineError;
use crate::gitrepo::{
    commit_basics, commit_changed_files, repo_revparse_id, repo_tag_names, repo_walk_from,
    repo_walk_range,
};
use crate::rex::{capture1_of, regex_capture1, regex_is_valid, regex_valid};
use crate::template::{
    chars_to_string, compile_extraction_pattern, compile_tag_glob, find_char_from, push_all,
    replace_chars, spec_extraction_pattern, spec_find_char, spec_insert, spec_insert_absent,
    spec_replace, to_chars, Vars,
};
use crate::version::{
    parse_version, spec_apply, spec_parse_version, spec_u64_digits, spec_version_string,
    u64_to_chars, Version,
};

verus! {

/// Everything one run works from. The scoped path is kept relative to the
/// repository's working directory; the caller resolves it before building
/// the configuration.
pub struct Config {
    pub head: String,
    pub input: String,
    pub output: String,
    pub vars: Vars,
    pub major_types: Vec<String>,
    pub minor_types: Vec<String>,
    pub patch_types: Vec<String>,
    pub path: String,
}

/// What tag resolution found: the governing version, the tag it came
/// from (empty where none matched), and the commit the tag resolves to
/// (`None` where there is no such commit).
pub struct ResolvedState {
    pub version: Version,
    pub tag: String,
    pub commit_id: Option<String>,
}

/// The version a tag contributes: what the extraction pattern's first
/// capture group captures of it, parsed as a version.
pub open spec fn spec_tag_version(pat: Seq<char>, tag: Seq<char>) -> Option<Version> {
    match capture1_of(pat, tag) {
        None => None,
        Some(cap) => spec_parse_version(cap),
    }
}

/// The scan of a tag list: each readable tag whose captured text parses
/// as a version replaces the running best when it is greater or equal, so
/// among equal candidates the last one enumerated wins.
pub open spec fn spec_scan(
    tags: Seq<Option<Seq<char>>>,
    pat: Seq<char>,
    best: Version,
    best_tag: Seq<char>,
) -> (Version, Seq<char>)
    decreases tags.len(),
{
    if tags.len() == 0 {
        (best, best_tag)
    } else {
        match tags[0] {
            None => spec_scan(tags.skip(1), pat, best, best_tag),
            Some(t) => match spec_tag_version(pat, t) {
                None => spec_scan(tags.skip(1), pat, best, best_tag),
                Some(v) => if best.spec_le(v) {
                    spec_scan(tags.skip(1), pat, v, t)
                } else {
                    spec_scan(tags.skip(1), pat, best, best_tag)
                },
            },
        }
    }
}

/// Scan candidate tag names for the greatest embedded version.
///
/// Tags the pattern does not capture a version from are skipped; so are
/// unreadable tag names. The starting point is `0.0.0` with an empty tag.
pub fn select_version(tags: &Vec<Option<String>>, pattern: &str) -> (r: (Version, String))
    requires
        regex_valid(pattern@),
    ensures
        ((r.0, r.1@) == spec_scan(
            tags.deep_view(),
            pattern@,
            (Version { major: 0u64, minor: 0u64, patch: 0u64 }),
            Seq::<char>::empty(),
        )),
{
    let ghost whole = tags.deep_view();
    let mut best = Version::zero();
    let mut best_tag = String::new();
    let n = tags.len();
    let mut i: usize = 0;
    proof {
        assert(whole.skip(0) =~= whole);
    }
    while i < n
        invariant
            i <= n,
            n == tags@.len(),
            whole == tags.deep_view(),
            whole.len() == n,
            regex_valid(pattern@),
            spec_scan(
                whole,
                pattern@,
                (Version { major: 0u64, minor: 0u64, patch: 0u64 }),
                Seq::<char>::empty(),
            ) == spec_scan(whole.skip(i as int), pattern@, best, best_tag@),
        decreases n - i,
    {
        proof {
            assert(whole.skip(i as int)[0] == whole[i as int]);
            assert(whole.skip(i as int).skip(1) =~= whole.skip(i + 1 as int));
        }
        match &tags[i] {
            None => {},
            Some(t) => {
                let cap = regex_capture1(pattern, t.as_str());
                match cap {
                    None => {
                        // The tag's name matched the glob but embeds no
                        // version: it is not a version tag.
                    },
                    Some(c) => {
                        let parsed = parse_version(c.as_str());
                        match parsed {
                            None => {
                                // Captured text that is no valid version:
                                // the tag is skipped.
                            },
                            Some(v) => {
                                if v.ge(&best) {
                                    best = v;
                                    best_tag = t.clone();
                                }
                            },
                        }
                    },
                }
            },
        }
        i = i + 1;
    }
    proof {
        assert(whole.skip(n as int) =~= Seq::<Option<Seq<char>>>::empty());
    }
    (best, best_tag)
}

/// The monotonic-selection law: the scan's result is at least its
/// starting point and at least every candidate version a tag embeds, and
/// it is the starting pair itself or a candidate reached by some tag. With
/// the `0.0.0` start this makes the resolved version the maximum of the
/// candidates, and `0.0.0` exactly when no tag embeds a version.
pub proof fn lemma_scan_monotonic(
    tags: Seq<Option<Seq<char>>>,
    pat: Seq<char>,
    best: Version,
    best_tag: Seq<char>,
)
    ensures
        best.spec_le(spec_scan(tags, pat, best, best_tag).0),
        forall|k: int|
            0 <= k < tags.len() && tags[k] is Some && spec_tag_version(pat, tags[k].unwrap())
                is Some ==> spec_tag_version(pat, tags[k].unwrap()).unwrap().spec_le(
                spec_scan(tags, pat, best, best_tag).0,
            ),
        spec_scan(tags, pat, best, best_tag) == (best, best_tag) || (exists|k: int|
            0 <= k < tags.len() && tags[k] is Some && spec_tag_version(pat, tags[k].unwrap())
                == Some(spec_scan(tags, pat, best, best_tag).0) && tags[k].unwrap() == spec_scan(
                tags,
                pat,
                best,
                best_tag,
            ).1),
    decreases tags.len(),
{
    if tags.len() > 0 {
        let rest = tags.skip(1);
        let res = spec_scan(tags, pat, best, best_tag);
        assert(forall|k: int| 0 <= k < rest.len() ==> rest[k] == tags[k + 1]);
        match tags[0] {
            None => {
                lemma_scan_monotonic(rest, pat, best, best_tag);
                assert forall|k: int|
                    1 <= k < tags.len() && tags[k] is Some && (spec_tag_version(
                        pat,
                        tags[k].unwrap(),
                    ) is Some) implies spec_tag_version(pat, tags[k].unwrap()).unwrap().spec_le(
                    res.0,
                ) by {
                    assert(rest[k - 1] == tags[k]);
                }
            },
            Some(t) => {
                match spec_tag_version(pat, t) {
                    None => {
                        lemma_scan_monotonic(rest, pat, best, best_tag);
                        assert forall|k: int|
                            1 <= k < tags.len() && tags[k] is Some && (spec_tag_version(
                                pat,
                                tags[k].unwrap(),
                            ) is Some) implies spec_tag_version(
                            pat,
                            tags[k].unwrap(),
                        ).unwrap().spec_le(res.0) by {
                            assert(rest[k - 1] == tags[k]);
                        }
                    },
                    Some(v) => {
                        if best.spec_le(v) {
                            lemma_scan_monotonic(rest, pat, v, t);
                            assert(v.spec_le(res.0));
                            assert(best.spec_le(res.0));
                            assert forall|k: int|
                                1 <= k < tags.len() && tags[k] is Some && (spec_tag_version(
                                    pat,
                                    tags[k].unwrap(),
                                ) is Some) implies spec_tag_version(
                                pat,
                                tags[k].unwrap(),
                            ).unwrap().spec_le(res.0) by {
                                assert(rest[k - 1] == tags[k]);
                            }
                            assert(spec_scan(rest, pat, v, t) == (v, t) ==> (tags[0] is Some
                                && spec_tag_version(pat, tags[0].unwrap()) == Some(res.0)
                                && tags[0].unwrap() == res.1));
                        } else {
                            lemma_scan_monotonic(rest, pat, best, best_tag);
                            assert(v.spec_lt(best));
                            assert(v.spec_le(res.0));
                            assert forall|k: int|
                                1 <= k < tags.len() && tags[k] is Some && (spec_tag_version(
                                    pat,
                                    tags[k].unwrap(),
                                ) is Some) implies spec_tag_version(
                                pat,
                                tags[k].unwrap(),
                            ).unwrap().spec_le(res.0) by {
                                assert(rest[k - 1] == tags[k]);
                            }
                        }
                    },
                }
            },
        }
    }
}

/// Whether a template compiles to a valid extraction pattern. Compilation
/// itself is total; a template whose compiled pattern is not valid
/// regular-expression syntax is reported, never a crash.
pub fn extraction_pattern_is_valid(template: &str, vars: &Vars) -> (r: bool)
    ensures
        r == regex_valid(spec_extraction_pattern(template@, vars@)),
{
    let pattern = compile_extraction_pattern(template, vars);
    regex_is_valid(pattern.as_str())
}

/// Resolve the governing version from the repository's tags.
///
/// The template is compiled to a glob that enumerates candidate tags and
/// to an extraction pattern that captures an embedded version; the
/// greatest captured version governs. No matching tag is the ordinary
/// first-release state: the result is then `0.0.0` with an empty tag. A
/// template that compiles to invalid pattern syntax is reported as an
/// error, not a crash.
pub fn get_version_from_git(repo: &git2::Repository, template: &str, vars: &Vars) -> (r: Result<
    ResolvedState,
    EngineError,
>)
    ensures
        (match r {
            Ok(st) => regex_valid(spec_extraction_pattern(template@, vars@)) && (exists|
                ts: Seq<Option<Seq<char>>>,
            |
                (st.version, st.tag@) == spec_scan(
                    ts,
                    spec_extraction_pattern(template@, vars@),
                    (Version { major: 0u64, minor: 0u64, patch: 0u64 }),
                    Seq::<char>::empty(),
                )),
            Err(e) => (e == EngineError::InvalidPattern && !regex_valid(
                spec_extraction_pattern(template@, vars@),
            )) || (e == EngineError::TagEnumeration && regex_valid(
                spec_extraction_pattern(template@, vars@),
            )),
        }),
{
    let pattern = compile_extraction_pattern(template, vars);
    if !regex_is_valid(pattern.as_str()) {
        return Err(EngineError::InvalidPattern);
    }
    let glob = compile_tag_glob(template);
    let tags_opt = repo_tag_names(repo, glob.as_str());
    if tags_opt.is_none() {
        return Err(EngineError::TagEnumeration);
    }
    let tags = tags_opt.unwrap();
    let (version, tag) = select_version(&tags, pattern.as_str());
    let commit_id = repo_revparse_id(repo, tag.as_str());
    proof {
        let ts = tags.deep_view();
        assert((version, tag@) == spec_scan(
            ts,
            spec_extraction_pattern(template@, vars@),
            (Version { major: 0u64, minor: 0u64, patch: 0u64 }),
            Seq::<char>::empty(),
        ));
    }
    Ok(ResolvedState { version, tag, commit_id })
}

/// Walk the commit range and apply the accumulated classification.
///
/// With a non-empty governing tag the walk covers `tag..head` in full;
/// with none it covers the whole ancestry of `head`, ending at the first
/// parentless commit (which is still classified). The version is bumped
/// once, by the dominant classification found, and left untouched when
/// the walk finds nothing or fails.
pub fn increment_version(
    version: &mut Version,
    tag: &str,
    config: &Config,
    repo: &git2::Repository,
) -> (r: Result<(), EngineError>)
    requires
        old(version).major < u64::MAX,
        old(version).minor < u64::MAX,
        old(version).patch < u64::MAX,
    ensures
        (match r {
            Ok(()) => exists|c: Classification| *final(version) == spec_apply(*old(version), c),
            Err(_) => *final(version) == *old(version),
        }),
{
    let path_bytes = config.path.as_str().as_bytes_vec();
    let head_opt = repo_revparse_id(repo, config.head.as_str());
    if head_opt.is_none() {
        return Err(EngineError::UnresolvableRevision);
    }
    let head_id = head_opt.unwrap();
    let bounded = !tag.is_empty();
    let ids_opt = if bounded {
        let tag_opt = repo_revparse_id(repo, tag);
        if tag_opt.is_none() {
            return Err(EngineError::UnresolvableRevision);
        }
        let tag_id = tag_opt.unwrap();
        repo_walk_range(repo, tag_id.as_str(), head_id.as_str())
    } else {
        repo_walk_from(repo, head_id.as_str())
    };
    if ids_opt.is_none() {
        return Err(EngineError::WalkFailure);
    }
    let ids = ids_opt.unwrap();
    let mut acc = Classification::NoChange;
    let n = ids.len();
    let mut i: usize = 0;
    while i < n
        invariant
            i <= n,
            n == ids@.len(),
            *version == *old(version),
        decreases n - i,
    {
        let basics = commit_basics(repo, ids[i].as_str());
        if basics.is_none() {
            return Err(EngineError::WalkFailure);
        }
        let info = basics.unwrap();
        let parent_count = info.0;
        let message = info.1;
        let files = if parent_count > 0 {
            let files_opt = commit_changed_files(repo, ids[i].as_str());
            if files_opt.is_none() {
                return Err(EngineError::DiffFailure);
            }
            files_opt.unwrap()
        } else {
            Vec::new()
        };
        let rec = CommitRecord { parent_count, files, message };
        let step = walk_step(
            &rec,
            &path_bytes,
            bounded,
            &config.major_types,
            &config.minor_types,
            &config.patch_types,
            acc,
        );
        match step {
            WalkStep::Done(c) => {
                acc = c;
                break ;
            },
            WalkStep::Continue(a) => {
                acc = a;
            },
            WalkStep::Unreadable => {
                return Err(EngineError::UnreadableMessage);
            },
        }
        i = i + 1;
    }
    let next = version.apply(acc);
    *version = next;
    Ok(())
}


/// Split a `KEY=value` argument at its first `=`.
pub fn parse_key_val(s: &str) -> (r: Result<(String, String), EngineError>)
    ensures
        (match r {
            Ok(kv) => spec_find_char(s@, '=') is Some && kv.0@ == s@.take(
                spec_find_char(s@, '=').unwrap(),
            ) && kv.1@ == s@.skip(spec_find_char(s@, '=').unwrap() + 1),
            Err(e) => e == EngineError::InvalidKeyValue && spec_find_char(s@, '=') is None,
        }),
{
    let v = to_chars(s);
    proof {
        assert(v@.skip(0) =~= v@);
    }
    let pos = find_char_from(&v, '=', 0);
    if pos.is_none() {
        return Err(EngineError::InvalidKeyValue);
    }
    let i = pos.unwrap();
    let n = v.len();
    let mut key: Vec<char> = Vec::new();
    let mut k: usize = 0;
    while k < i
        invariant
            k <= i <= n,
            n == v@.len(),
            key@ == v@.take(k as int),
        decreases i - k,
    {
        key.push(v[k]);
        proof {
            assert(v@.take(k + 1 as int) == v@.take(k as int).push(v@[k as int]));
        }
        k = k + 1;
    }
    let mut value: Vec<char> = Vec::new();
    let mut j: usize = i + 1;
    proof {
        assert(value@ =~= v@.subrange(i + 1 as int, j as int));
    }
    while j < n
        invariant
            i + 1 <= j <= n,
            n == v@.len(),
            value@ == v@.subrange(i + 1 as int, j as int),
        decreases n - j,
    {
        value.push(v[j]);
        proof {
            assert(v@.subrange(i + 1 as int, j + 1 as int) == v@.subrange(
                i + 1 as int,
                j as int,
            ).push(v@[j as int]));
        }
        j = j + 1;
    }
    proof {
        assert(key@ =~= s@.take(i as int));
        assert(value@ =~= s@.skip(i + 1 as int));
    }
    Ok((chars_to_string(&key), chars_to_string(&value)))
}

/// The variable name `path[idx]`, or `path[-idx]` for the negative form.
pub open spec fn spec_path_key(idx: int, neg: bool) -> Seq<char> {
    "path["@ + (if neg {
        seq!['-']
    } else {
        Seq::<char>::empty()
    }) + spec_u64_digits(idx) + "]"@
}

/// The variable map after registering the components of the scoped path:
/// the `k`-th component from the end, 1-based, under both `path[k]` and
/// `path[-k]`, without overriding existing bindings.
pub open spec fn spec_add_path_vars(
    vs: Seq<(Seq<char>, Seq<char>)>,
    comps: Seq<Seq<char>>,
    k: int,
) -> Seq<(Seq<char>, Seq<char>)>
    decreases comps.len() - k,
    when 0 <= k <= comps.len()
{
    if k == comps.len() {
        vs
    } else {
        let part = comps[comps.len() - 1 - k];
        spec_add_path_vars(
            spec_insert_absent(
                spec_insert_absent(vs, spec_path_key(k + 1, false), part),
                spec_path_key(k + 1, true),
                part,
            ),
            comps,
            k + 1,
        )
    }
}

/// Register the components of the scoped path as template variables.
///
/// The component nearest the leaf is `path[1]` and `path[-1]`; both
/// indexing forms are 1-based from the end of the path. User-supplied
/// variables win where a name collides.
pub fn add_path_to_vars(components: &Vec<String>, vars: &mut Vars)
    ensures
        final(vars)@ == spec_add_path_vars(old(vars)@, components.deep_view(), 0),
{
    let ghost comps = components.deep_view();
    let n = components.len();
    let mut k: usize = 0;
    while k < n
        invariant
            k <= n,
            n == components@.len(),
            comps == components.deep_view(),
            comps.len() == n,
            spec_add_path_vars(old(vars)@, comps, 0) == spec_add_path_vars(vars@, comps, k as int),
        decreases n - k,
    {
        let ghost before = vars@;
        let part = &components[n - 1 - k];
        let digits = u64_to_chars((k as u64) + 1);
        let mut pos_key = to_chars("path[");
        push_all(&mut pos_key, &digits);
        pos_key.push(']');
        let mut neg_key = to_chars("path[");
        neg_key.push('-');
        push_all(&mut neg_key, &digits);
        neg_key.push(']');
        proof {
            reveal_strlit("path[");
            reveal_strlit("]");
            assert(pos_key@ =~= spec_path_key(k + 1, false));
            assert(neg_key@ =~= spec_path_key(k + 1, true));
            assert(part@ == comps[n - 1 - k]);
        }
        let pos_name = chars_to_string(&pos_key);
        let neg_name = chars_to_string(&neg_key);
        vars.insert_if_absent(pos_name.as_str(), part.as_str());
        vars.insert_if_absent(neg_name.as_str(), part.as_str());
        proof {
            assert(spec_add_path_vars(before, comps, k as int) == spec_add_path_vars(
                vars@,
                comps,
                k + 1,
            ));
        }
        k = k + 1;
    }
}

/// Register the run's results in the variable map: the previous version
/// and tag, the freshly computed version, and the next tag, which is the
/// input template with `{version}` filled in. Every binding overwrites.
pub fn register_result_vars(
    vars: &mut Vars,
    input: &str,
    previous: &Version,
    previous_tag: &str,
    next: &Version,
)
    ensures
        final(vars)@ == spec_insert(
            spec_insert(
                spec_insert(
                    spec_insert(old(vars)@, "previous-version"@, spec_version_string(*previous)),
                    "previous-tag"@,
                    previous_tag@,
                ),
                "version"@,
                spec_version_string(*next),
            ),
            "tag"@,
            spec_replace(input@, "{version}"@, spec_version_string(*next)),
        ),
{
    let prev_str = previous.to_version_string();
    vars.insert("previous-version", prev_str.as_str());
    vars.insert("previous-tag", previous_tag);
    let next_str = next.to_version_string();
    vars.insert("version", next_str.as_str());
    let ic = to_chars(input);
    let from = to_chars("{version}");
    let nc = to_chars(next_str.as_str());
    proof {
        reveal_strlit("{version}");
    }
    let tag_value = replace_chars(&ic, &from, &nc);
    let tag_string = chars_to_string(&tag_value);
    vars.insert("tag", tag_string.as_str());
}
} // verus!
