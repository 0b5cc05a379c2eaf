//! The rules of archiving: which workspace paths a save takes and how they
//! are named, which archive entries a restore accepts, and the limits both
//! enforce. Walking the workspace and streaming `tar.zst` happen around these
//! decisions.
use vstd::prelude::*;

use globset::{GlobBuilder, GlobSet, GlobSetBuilder};

use crate::config::{path_starts_with, portable, portable_chars};
use crate::entry::join_path;
use crate::error::{fails_with, CacheError, Result};
use crate::limits::{MAX_COMPRESSED_BYTES, MAX_ENTRIES, MAX_EXTRACTED_BYTES, MAX_FILE_BYTES};
use crate::model::{ArchiveEntry, EntryKind};
use crate::paths::{
    all_normal, comp_view, comps_match, components, components_of, normal_texts,
    push_normal_texts, Comp, CompKind,
};
use crate::text::{chars_of, is_prefix, join_with, push_range, split_on, split_ranges};

verus! {

// ---------------------------------------------------------------------------
// Archive paths
// ---------------------------------------------------------------------------

/// Whether every component of `comps[from..]` is a normal one.
fn normal_from(comps: &Vec<Comp>, from: usize) -> (r: bool)
    requires
        from <= comps.len(),
    ensures
        r == forall|k: int| from <= k < comps.len() ==> (#[trigger] comps@[k]).kind == CompKind::Normal,
{
    let mut i = from;
    while i < comps.len()
        invariant
            from <= i <= comps.len(),
            forall|k: int| from <= k < i ==> (#[trigger] comps@[k]).kind == CompKind::Normal,
        decreases comps.len() - i,
    {
        if comps[i].kind != CompKind::Normal {
            return false;
        }
        i = i + 1;
    }
    true
}

/// The path an archive entry named `raw` is extracted to, or why it is refused.
pub open spec fn archive_entry_path(raw: Seq<char>) -> core::result::Result<Seq<char>, Seq<char>> {
    let cs = components(raw);
    if !all_normal(cs) {
        Err("absolute or traversal archive path"@)
    } else if cs.len() == 0 {
        Err("empty archive path"@)
    } else {
        Ok(join_with(normal_texts(cs), '/'))
    }
}

/// The `/`-joined normal components of an archive entry name; absolute,
/// traversal, current-directory and empty names are refused.
pub fn checked_entry_path(path: &str) -> (r: Result<String>)
    ensures
        match archive_entry_path(path@) {
            Ok(p) => r is Ok && r->Ok_0@ == p,
            Err(m) => fails_with(r, "unsafe-archive"@, m),
        },
{
    let v = chars_of(path);
    let comps = components_of(&v);
    let ghost cs = components(path@);
    assert(comps@.skip(0).map_values(|c: Comp| comp_view(path@, c)) =~= cs);
    if !normal_from(&comps, 0) {
        assert(!all_normal(cs)) by {
            let k = choose|k: int| 0 <= k < comps.len() && (#[trigger] comps@[k]).kind
                != CompKind::Normal;
            assert(cs[k].0 == comps@[k].kind);
        }
        return Err(CacheError::new("unsafe-archive", "absolute or traversal archive path"));
    }
    assert(all_normal(cs)) by {
        assert forall|k: int| 0 <= k < cs.len() implies (#[trigger] cs[k]).0 == CompKind::Normal by {
            assert(cs[k].0 == comps@[k].kind);
        }
    }
    if comps.len() == 0 {
        return Err(CacheError::new("unsafe-archive", "empty archive path"));
    }
    let mut out = String::new();
    push_normal_texts(&mut out, path, &comps, 0);
    Ok(out)
}

/// The portable name of workspace path `path`, or why it has none.
pub open spec fn workspace_relative(workspace: Seq<char>, path: Seq<char>) -> core::result::Result<
    Seq<char>,
    Seq<char>,
> {
    let w = components(workspace);
    let p = components(path);
    if !path_starts_with(path, workspace) {
        Err("path escapes workspace"@)
    } else if p.len() == w.len() {
        Err("workspace root cannot be archived"@)
    } else if !all_normal(p.skip(w.len() as int)) {
        Err("archive path is not portable"@)
    } else {
        Ok(join_with(normal_texts(p.skip(w.len() as int)), '/'))
    }
}

/// The `/`-separated name of `path` relative to `workspace`; paths outside
/// the workspace, the workspace itself and non-portable paths are refused.
pub fn portable_path(workspace: &str, path: &str) -> (r: Result<String>)
    ensures
        match workspace_relative(workspace@, path@) {
            Ok(p) => r is Ok && r->Ok_0@ == p,
            Err(m) => fails_with(r, "invalid-path"@, m),
        },
{
    if !crate::config::components_prefix(path, workspace) {
        return Err(CacheError::new("invalid-path", "path escapes workspace"));
    }
    let wv = chars_of(workspace);
    let pv = chars_of(path);
    let wc = components_of(&wv);
    let pc = components_of(&pv);
    let ghost w = components(workspace@);
    let ghost p = components(path@);
    if pc.len() == wc.len() {
        return Err(CacheError::new("invalid-path", "workspace root cannot be archived"));
    }
    let from = wc.len();
    let ghost rest = p.skip(from as int);
    assert(pc@.skip(from as int).map_values(|c: Comp| comp_view(path@, c)) =~= rest);
    if !normal_from(&pc, from) {
        assert(!all_normal(rest)) by {
            let k = choose|k: int| from <= k < pc.len() && (#[trigger] pc@[k]).kind
                != CompKind::Normal;
            assert(rest[k - from].0 == pc@[k].kind);
        }
        return Err(CacheError::new("invalid-path", "archive path is not portable"));
    }
    assert(all_normal(rest)) by {
        assert forall|k: int| 0 <= k < rest.len() implies (#[trigger] rest[k]).0
            == CompKind::Normal by {
            assert(rest[k].0 == pc@[k + from].kind);
        }
    }
    let mut out = String::new();
    push_normal_texts(&mut out, path, &pc, from);
    Ok(out)
}

/// Normal names joined with `/` form a name that a restore accepts
/// unchanged and that entry metadata may record.
proof fn lemma_joined_names_restore(names: Seq<Seq<char>>)
    requires
        names.len() > 0,
        forall|i: int| 0 <= i < names.len() ==> crate::paths::is_normal_name(#[trigger] names[i]),
    ensures
        archive_entry_path(join_with(names, '/')) == Ok::<Seq<char>, Seq<char>>(
            join_with(names, '/'),
        ),
        crate::entry::entry_path_ok(join_with(names, '/')),
{
    let j = join_with(names, '/');
    crate::paths::lemma_join_of_names(names);
    crate::paths::lemma_normal_texts_as_normal(names);
    assert(split_on(j, '/') == names);
    assert forall|i: int| 0 <= i < split_on(j, '/').len() implies (#[trigger] split_on(j, '/')[i])
        != crate::paths::dot_dot() && split_on(j, '/')[i].len() > 0 by {
        assert(crate::paths::is_normal_name(names[i]));
    }
}

/// What a save names an archived path is accepted unchanged by a restore
/// and is a valid recorded path: save and restore agree on archive names.
pub proof fn lemma_saved_name_restores(workspace: Seq<char>, path: Seq<char>)
    requires
        workspace_relative(workspace, path) is Ok,
    ensures
        archive_entry_path(workspace_relative(workspace, path)->Ok_0) == workspace_relative(
            workspace,
            path,
        ),
        crate::entry::entry_path_ok(workspace_relative(workspace, path)->Ok_0),
{
    let w = components(workspace);
    let p = components(path);
    let rest = p.skip(w.len() as int);
    crate::paths::lemma_normal_texts_all_normal(rest);
    crate::paths::lemma_normal_components_are_names(path);
    let names = normal_texts(rest);
    assert forall|i: int| 0 <= i < names.len() implies crate::paths::is_normal_name(
        #[trigger] names[i],
    ) by {
        assert(names[i] == rest[i].1);
        assert(rest[i] == p[i + w.len()]);
        assert(rest[i].0 == CompKind::Normal);
    }
    lemma_joined_names_restore(names);
}

/// An accepted archive name is accepted again unchanged.
pub proof fn lemma_checked_name_is_stable(raw: Seq<char>)
    requires
        archive_entry_path(raw) is Ok,
    ensures
        archive_entry_path(archive_entry_path(raw)->Ok_0) == archive_entry_path(raw),
{
    let cs = components(raw);
    crate::paths::lemma_normal_texts_all_normal(cs);
    crate::paths::lemma_normal_components_are_names(raw);
    let names = normal_texts(cs);
    assert forall|i: int| 0 <= i < names.len() implies crate::paths::is_normal_name(
        #[trigger] names[i],
    ) by {
        assert(names[i] == cs[i].1);
    }
    lemma_joined_names_restore(names);
}

// ---------------------------------------------------------------------------
// Glob patterns
// ---------------------------------------------------------------------------

/// `globset::GlobSet`, carried opaquely; what it matches is `set_globs`.
#[verifier::external_type_specification]
#[verifier::external_body]
pub struct ExGlobSet(GlobSet);

/// `globset::GlobSetBuilder`, carried opaquely; what it holds is `builder_globs`.
#[verifier::external_type_specification]
#[verifier::external_body]
pub struct ExGlobSetBuilder(GlobSetBuilder);

/// `globset::Error`, carried opaquely and mapped to `invalid-input`.
#[verifier::external_type_specification]
#[verifier::external_body]
pub struct ExGlobError(globset::Error);

/// Whether `globset::GlobBuilder` with `literal_separator(true)` accepts
/// `pattern`.
pub uninterp spec fn glob_compiles(pattern: Seq<char>) -> bool;

/// Whether the glob `pattern` (with `literal_separator(true)`, so `*` and `?`
/// never cross `/`) matches `path`.
pub uninterp spec fn glob_is_match(pattern: Seq<char>, path: Seq<char>) -> bool;

/// The patterns added to a `GlobSetBuilder`, in order.
pub uninterp spec fn builder_globs(builder: GlobSetBuilder) -> Seq<Seq<char>>;

/// The patterns a `GlobSet` was built from, in order.
pub uninterp spec fn set_globs(set: GlobSet) -> Seq<Seq<char>>;

/// `GlobSetBuilder::new`: an empty builder.
#[verifier::external_body]
fn new_glob_builder() -> (b: GlobSetBuilder)
    ensures
        builder_globs(b) == Seq::<Seq<char>>::empty(),
{
    GlobSetBuilder::new()
}

/// `GlobBuilder::new(pattern).literal_separator(true).build()` and, when the
/// glob compiles, `GlobSetBuilder::add`: the builder gains the pattern exactly
/// when it compiles.
#[verifier::external_body]
fn add_glob(builder: &mut GlobSetBuilder, pattern: &str) -> (r: core::result::Result<
    (),
    globset::Error,
>)
    ensures
        r is Ok <==> glob_compiles(pattern@),
        r is Ok ==> builder_globs(*final(builder)) == builder_globs(*old(builder)).push(pattern@),
        r is Err ==> builder_globs(*final(builder)) == builder_globs(*old(builder)),
{
    let glob = GlobBuilder::new(pattern).literal_separator(true).build()?;
    builder.add(glob);
    Ok(())
}

/// Whether `GlobSetBuilder::build` succeeds on a builder holding `globs`
/// (each added with `literal_separator(true)`); it depends on them alone.
pub uninterp spec fn glob_set_builds(globs: Seq<Seq<char>>) -> bool;

/// `GlobSetBuilder::build`: a set of the builder's patterns. Whether it
/// succeeds is a function of those patterns (`glob_set_builds`).
#[verifier::external_body]
fn build_glob_set(builder: &GlobSetBuilder) -> (r: core::result::Result<GlobSet, globset::Error>)
    ensures
        r is Ok <==> glob_set_builds(builder_globs(*builder)),
        r is Ok ==> set_globs(r->Ok_0) == builder_globs(*builder),
{
    builder.build()
}

/// `GlobSet::is_match`: whether any of the set's patterns matches `path`.
#[verifier::external_body]
fn glob_set_matches(set: &GlobSet, path: &str) -> (r: bool)
    ensures
        r == (exists|k: int| 0 <= k < set_globs(*set).len() && #[trigger] glob_is_match(set_globs(*set)[k], path@)),
{
    set.is_match(path)
}

pub open spec fn portable_patterns(patterns: Seq<String>) -> Seq<Seq<char>> {
    patterns.map_values(|p: String| portable(p@))
}

/// Every pattern, with Windows separators read as `/`, is a valid glob.
pub open spec fn all_patterns_compile(patterns: Seq<String>) -> bool {
    forall|k: int| 0 <= k < patterns.len() ==> glob_compiles(portable(#[trigger] patterns[k]@))
}

/// `p` with every `\` replaced by `/`, as a string.
pub fn portable_text(p: &str) -> (r: String)
    ensures
        r@ == portable(p@),
{
    let v = chars_of(p);
    let mut out = String::new();
    let mut i: usize = 0;
    while i < v.len()
        invariant
            v@ == p@,
            i <= v.len(),
            out@ == portable(p@).take(i as int),
        decreases v.len() - i,
    {
        if v[i] == '\\' {
            out.append("/");
            proof {
                reveal_strlit("/");
            }
        } else {
            push_range(&mut out, p, i, i + 1);
            assert(p@.subrange(i as int, i + 1) =~= seq![p@[i as int]]);
        }
        assert(portable(p@).take(i + 1) =~= portable(p@).take(i as int).push(portable(p@)[i as int]));
        i = i + 1;
    }
    assert(portable(p@).take(i as int) =~= portable(p@));
    out
}

/// A set matching the portable forms of `patterns`; an invalid pattern is
/// refused.
fn build_matcher(patterns: &[String]) -> (r: Result<GlobSet>)
    ensures
        (exists|k: int|
            0 <= k < patterns.len() && !glob_compiles(portable(#[trigger] patterns[k]@))) ==> r is Err
            && r->Err_0.code@ == "invalid-input"@,
        r is Ok ==> set_globs(r->Ok_0) == portable_patterns(patterns@) && forall|k: int|
            0 <= k < patterns.len() ==> glob_compiles(portable(#[trigger] patterns[k]@)),
        r is Err ==> r->Err_0.code@ == "invalid-input"@,
        all_patterns_compile(patterns@) && glob_set_builds(portable_patterns(patterns@)) ==> r is Ok,
{
    let mut builder = new_glob_builder();
    let mut i: usize = 0;
    while i < patterns.len()
        invariant
            i <= patterns.len(),
            builder_globs(builder) == portable_patterns(patterns@).take(i as int),
            forall|k: int| 0 <= k < i ==> glob_compiles(portable(#[trigger] patterns[k]@)),
        decreases patterns.len() - i,
    {
        let text = portable_text(patterns[i].as_str());
        match add_glob(&mut builder, text.as_str()) {
            Ok(()) => {},
            Err(error) => {
                return Err(CacheError { code: "invalid-input", message: error.to_string() });
            },
        }
        assert(portable_patterns(patterns@).take(i + 1) =~= portable_patterns(patterns@).take(
            i as int,
        ).push(portable(patterns@[i as int]@)));
        i = i + 1;
    }
    assert(portable_patterns(patterns@).take(i as int) =~= portable_patterns(patterns@));
    match build_glob_set(&builder) {
        Ok(set) => Ok(set),
        Err(error) => Err(CacheError { code: "invalid-input", message: error.to_string() }),
    }
}

/// A compiled set of path patterns (Windows separators read as `/`, and `*`
/// never crossing `/`).
pub struct PathMatcher {
    set: GlobSet,
}

impl PathMatcher {
    /// The portable patterns the matcher was built from.
    pub closed spec fn patterns(&self) -> Seq<Seq<char>> {
        set_globs(self.set)
    }

    /// Compiles `patterns`; an invalid pattern is refused.
    pub fn new(patterns: &[String]) -> (r: Result<PathMatcher>)
        ensures
            (exists|k: int|
                0 <= k < patterns.len() && !glob_compiles(portable(#[trigger] patterns[k]@)))
                ==> r is Err,
            r is Ok ==> r->Ok_0.patterns() == portable_patterns(patterns@),
            r is Err ==> r->Err_0.code@ == "invalid-input"@,
            all_patterns_compile(patterns@) && glob_set_builds(portable_patterns(patterns@))
                ==> r is Ok,
    {
        let set = build_matcher(patterns)?;
        Ok(PathMatcher { set })
    }

    /// Whether some pattern matches `path`.
    pub fn is_match(&self, path: &str) -> (r: bool)
        ensures
            r == globs_match(self.patterns(), path@),
    {
        glob_set_matches(&self.set, path)
    }

    /// Whether a path met at `depth` while walking `workspace` is taken into
    /// a save: the workspace itself (depth 0) never is; another path is
    /// taken when a pattern matches its portable name, and refused when it
    /// is then a symlink.
    pub fn selects(&self, workspace: &str, path: &str, depth: usize, is_symlink: bool) -> (r:
        Result<bool>)
        ensures
            depth == 0 ==> r == Ok::<bool, CacheError>(false),
            depth > 0 ==> match workspace_relative(workspace@, path@) {
                Err(m) => fails_with(r, "invalid-path"@, m),
                Ok(name) => if globs_match(self.patterns(), name) {
                    if is_symlink {
                        fails_with(r, "unsupported-file"@, "symlinks are unsupported"@)
                    } else {
                        r == Ok::<bool, CacheError>(true)
                    }
                } else {
                    r == Ok::<bool, CacheError>(false)
                },
            },
    {
        if depth == 0 {
            return Ok(false);
        }
        let name = portable_path(workspace, path)?;
        if !self.is_match(name.as_str()) {
            return Ok(false);
        }
        if is_symlink {
            return Err(CacheError::new("unsupported-file", "symlinks are unsupported"));
        }
        Ok(true)
    }
}

/// `p` holds a glob metacharacter (`*`, `?`, `[` or `{`).
pub open spec fn has_glob_meta(p: Seq<char>) -> bool {
    exists|i: int| 0 <= i < p.len() && (p[i] == '*' || p[i] == '?' || p[i] == '[' || p[i] == '{')
}

fn holds_glob_meta(p: &Vec<char>) -> (r: bool)
    ensures
        r == has_glob_meta(p@),
{
    let mut i: usize = 0;
    while i < p.len()
        invariant
            i <= p.len(),
            forall|k: int|
                0 <= k < i ==> !(p@[k] == '*' || p@[k] == '?' || p@[k] == '[' || p@[k] == '{'),
        decreases p.len() - i,
    {
        let c = p[i];
        if c == '*' || c == '?' || c == '[' || c == '{' {
            return true;
        }
        i = i + 1;
    }
    false
}

/// `path` is `dir` itself or lies below it.
pub open spec fn at_or_below(path: Seq<char>, dir: Seq<char>) -> bool {
    path == dir || strictly_below(path, dir)
}

/// `path` continues `dir` with a `/`.
pub open spec fn strictly_below(path: Seq<char>, dir: Seq<char>) -> bool {
    is_prefix(dir, path) && path.len() > dir.len() && path[dir.len() as int] == '/'
}

fn is_strictly_below(path: &Vec<char>, dir: &Vec<char>) -> (r: bool)
    ensures
        r == strictly_below(path@, dir@),
{
    path.len() > dir.len() && crate::text::starts_with_chars(path, dir) && path[dir.len()] == '/'
}

/// Path `i` of `paths` is within the declared scope: it matched a pattern
/// itself (or an equal path did), it is at or below a literal directory
/// pattern, or it is an ancestor directory of a matched path.
pub open spec fn in_scope(
    paths: Seq<Seq<char>>,
    patterns: Seq<Seq<char>>,
    matched: Seq<bool>,
    i: int,
) -> bool {
    ||| exists|j: int| 0 <= j < paths.len() && matched[j] && #[trigger] paths[j] == paths[i]
    ||| exists|d: int|
        0 <= d < patterns.len() && !has_glob_meta(#[trigger] patterns[d]) && at_or_below(
            paths[i],
            patterns[d],
        )
    ||| exists|j: int|
        0 <= j < paths.len() && matched[j] && strictly_below(#[trigger] paths[j], paths[i])
}

/// `p` holds one of the glob metacharacters `*`, `?`, `[`, `{`.
pub open spec fn holds_metachar(p: Seq<char>) -> bool {
    exists|k: int| 0 <= k < p.len() && (p[k] == '*' || p[k] == '?' || p[k] == '[' || p[k] == '{')
}

/// A pattern without `*`, `?`, `[` and `{` names a literal path: it admits
/// that path and every path below it (after a `/`), whether or not the glob
/// set matched them.
pub proof fn lemma_literal_pattern_admits_below(
    paths: Seq<Seq<char>>,
    patterns: Seq<Seq<char>>,
    matched: Seq<bool>,
    i: int,
    d: int,
)
    requires
        0 <= i < paths.len(),
        0 <= d < patterns.len(),
        !holds_metachar(patterns[d]),
        paths[i] == patterns[d] || (patterns[d].len() < paths[i].len() && paths[i].subrange(
            0,
            patterns[d].len() as int,
        ) == patterns[d] && paths[i][patterns[d].len() as int] == '/'),
    ensures
        in_scope(paths, patterns, matched, i),
{
    let p = patterns[d];
    assert(!has_glob_meta(p));
    if paths[i] != p {
        assert(paths[i].take(p.len() as int) =~= paths[i].subrange(0, p.len() as int));
        assert(strictly_below(paths[i], p));
    }
    assert(at_or_below(paths[i], patterns[d]));
}

/// Patterns that each hold a glob metacharacter admit nothing by
/// themselves: when the glob set matched no path, no path is in scope.
pub proof fn lemma_glob_patterns_admit_only_matches(
    paths: Seq<Seq<char>>,
    patterns: Seq<Seq<char>>,
    matched: Seq<bool>,
)
    requires
        forall|d: int| 0 <= d < patterns.len() ==> holds_metachar(#[trigger] patterns[d]),
        forall|j: int| 0 <= j < matched.len() ==> !(#[trigger] matched[j]),
        matched.len() == paths.len(),
    ensures
        forall|i: int| 0 <= i < paths.len() ==> !#[trigger] in_scope(paths, patterns, matched, i),
{
    assert forall|i: int| 0 <= i < paths.len() implies !#[trigger] in_scope(
        paths,
        patterns,
        matched,
        i,
    ) by {
        assert forall|d: int| 0 <= d < patterns.len() implies has_glob_meta(#[trigger] patterns[d]) by {
            assert(holds_metachar(patterns[d]));
        }
    }
}

pub open spec fn all_in_scope(
    paths: Seq<Seq<char>>,
    patterns: Seq<Seq<char>>,
    matched: Seq<bool>,
) -> bool {
    forall|i: int| 0 <= i < paths.len() ==> #[trigger] in_scope(paths, patterns, matched, i)
}

/// Adding patterns never takes a path out of scope: what is in scope of
/// `patterns` (with the paths each matched) is in scope of any list `more`
/// that holds every one of them.
pub proof fn lemma_scope_grows_with_patterns(
    paths: Seq<Seq<char>>,
    patterns: Seq<Seq<char>>,
    more: Seq<Seq<char>>,
)
    requires
        forall|d: int| 0 <= d < patterns.len() ==> more.contains(#[trigger] patterns[d]),
        all_in_scope(paths, patterns, paths.map_values(|p: Seq<char>| globs_match(patterns, p))),
    ensures
        all_in_scope(paths, more, paths.map_values(|p: Seq<char>| globs_match(more, p))),
{
    let m1 = paths.map_values(|p: Seq<char>| globs_match(patterns, p));
    let m2 = paths.map_values(|p: Seq<char>| globs_match(more, p));
    assert forall|j: int| 0 <= j < paths.len() && m1[j] implies #[trigger] m2[j] by {
        let k = choose|k: int| 0 <= k < patterns.len() && #[trigger] glob_is_match(patterns[k], paths[j]);
        assert(more.contains(patterns[k]));
        let e = choose|e: int| 0 <= e < more.len() && more[e] == patterns[k];
        assert(glob_is_match(more[e], paths[j]));
    }
    assert forall|i: int| 0 <= i < paths.len() implies #[trigger] in_scope(paths, more, m2, i) by {
        assert(in_scope(paths, patterns, m1, i));
        if exists|j: int| 0 <= j < paths.len() && m1[j] && #[trigger] paths[j] == paths[i] {
            let j = choose|j: int| 0 <= j < paths.len() && m1[j] && #[trigger] paths[j] == paths[i];
            assert(m2[j]);
        } else if exists|d: int|
            0 <= d < patterns.len() && !has_glob_meta(#[trigger] patterns[d]) && at_or_below(
                paths[i],
                patterns[d],
            ) {
            let d = choose|d: int|
                0 <= d < patterns.len() && !has_glob_meta(#[trigger] patterns[d]) && at_or_below(
                    paths[i],
                    patterns[d],
                );
            assert(more.contains(patterns[d]));
            let e = choose|e: int| 0 <= e < more.len() && more[e] == patterns[d];
            assert(!has_glob_meta(more[e]) && at_or_below(paths[i], more[e]));
        } else {
            let j = choose|j: int|
                0 <= j < paths.len() && m1[j] && strictly_below(#[trigger] paths[j], paths[i]);
            assert(m2[j]);
        }
    }
}

pub open spec fn texts(v: Seq<String>) -> Seq<Seq<char>> {
    v.map_values(|s: String| s@)
}

/// Whether every path is within the scope of `patterns`, given for each path
/// whether the glob set matched it (`matched[i]` for `paths[i]`).
#[verifier::loop_isolation(false)]
pub fn paths_within_scope(paths: &[String], patterns: &[String], matched: &[bool]) -> (r: bool)
    requires
        matched.len() == paths.len(),
    ensures
        r == all_in_scope(texts(paths@), portable_patterns(patterns@), matched@),
{
    let ghost ps = texts(paths@);
    let ghost pats = portable_patterns(patterns@);
    let mut path_chars: Vec<Vec<char>> = Vec::new();
    let mut i: usize = 0;
    while i < paths.len()
        invariant
            i <= paths.len(),
            ps == texts(paths@),
            path_chars.len() == i,
            forall|k: int| 0 <= k < i ==> (#[trigger] path_chars@[k])@ == ps[k],
        decreases paths.len() - i,
    {
        path_chars.push(chars_of(paths[i].as_str()));
        i = i + 1;
    }
    let mut pattern_chars: Vec<Vec<char>> = Vec::new();
    let mut literal: Vec<bool> = Vec::new();
    let mut d: usize = 0;
    while d < patterns.len()
        invariant
            d <= patterns.len(),
            pats == portable_patterns(patterns@),
            pattern_chars.len() == d,
            literal.len() == d,
            forall|k: int| 0 <= k < d ==> (#[trigger] pattern_chars@[k])@ == pats[k],
            forall|k: int| 0 <= k < d ==> #[trigger] literal@[k] == !has_glob_meta(pats[k]),
        decreases patterns.len() - d,
    {
        let p = portable_chars(patterns[d].as_str());
        literal.push(!holds_glob_meta(&p));
        pattern_chars.push(p);
        d = d + 1;
    }
    let n = paths.len();
    let mut i: usize = 0;
    while i < n
        invariant
            n == paths.len(),
            n == matched.len(),
            i <= n,
            ps == texts(paths@),
            pats == portable_patterns(patterns@),
            path_chars.len() == n,
            forall|k: int| 0 <= k < n ==> (#[trigger] path_chars@[k])@ == ps[k],
            pattern_chars.len() == patterns.len(),
            literal.len() == patterns.len(),
            forall|k: int| 0 <= k < patterns.len() ==> (#[trigger] pattern_chars@[k])@ == pats[k],
            forall|k: int|
                0 <= k < patterns.len() ==> #[trigger] literal@[k] == !has_glob_meta(pats[k]),
            forall|k: int| 0 <= k < i ==> #[trigger] in_scope(ps, pats, matched@, k),
        decreases n - i,
    {
        let path = &path_chars[i];
        // A matched path equal to this one.
        let mut ok = false;
        let mut j: usize = 0;
        while j < n && !ok
            invariant
                n == paths.len(),
                n == matched.len(),
                i < n,
                j <= n,
                path_chars.len() == n,
                forall|k: int| 0 <= k < n ==> (#[trigger] path_chars@[k])@ == ps[k],
                path@ == ps[i as int],
                ok ==> in_scope(ps, pats, matched@, i as int),
                !ok ==> forall|k: int| 0 <= k < j ==> !(matched@[k] && #[trigger] ps[k] == ps[i as int]),
            decreases n - j,
        {
            if matched[j] && crate::text::chars_equal(&path_chars[j], path) {
                assert(ps[j as int] == ps[i as int]);
                ok = true;
            }
            j = j + 1;
        }
        // A literal directory pattern at or above it.
        let mut ok2 = false;
        let mut d: usize = 0;
        while d < patterns.len() && !ok2
            invariant
                pattern_chars.len() == patterns.len(),
                literal.len() == patterns.len(),
                forall|k: int| 0 <= k < patterns.len() ==> (#[trigger] pattern_chars@[k])@ == pats[k],
                forall|k: int|
                    0 <= k < patterns.len() ==> #[trigger] literal@[k] == !has_glob_meta(pats[k]),
                i < n,
                d <= patterns.len(),
                path@ == ps[i as int],
                ok2 ==> in_scope(ps, pats, matched@, i as int),
                !ok2 ==> forall|k: int|
                    0 <= k < d ==> !(!has_glob_meta(#[trigger] pats[k]) && at_or_below(
                        ps[i as int],
                        pats[k],
                    )),
            decreases patterns.len() - d,
        {
            let dir = &pattern_chars[d];
            if literal[d] && (crate::text::chars_equal(path, dir) || is_strictly_below(path, dir)) {
                assert(!has_glob_meta(pats[d as int]) && at_or_below(ps[i as int], pats[d as int]));
                ok2 = true;
            }
            d = d + 1;
        }
        // A matched path below it.
        let mut ok3 = false;
        let mut j: usize = 0;
        while j < n && !ok3
            invariant
                n == paths.len(),
                n == matched.len(),
                i < n,
                j <= n,
                path_chars.len() == n,
                forall|k: int| 0 <= k < n ==> (#[trigger] path_chars@[k])@ == ps[k],
                path@ == ps[i as int],
                ok3 ==> in_scope(ps, pats, matched@, i as int),
                !ok3 ==> forall|k: int|
                    0 <= k < j ==> !(matched@[k] && strictly_below(#[trigger] ps[k], ps[i as int])),
            decreases n - j,
        {
            if matched[j] && is_strictly_below(&path_chars[j], path) {
                assert(strictly_below(ps[j as int], ps[i as int]));
                ok3 = true;
            }
            j = j + 1;
        }
        if !ok && !ok2 && !ok3 {
            assert(!in_scope(ps, pats, matched@, i as int));
            return false;
        }
        i = i + 1;
    }
    true
}

/// Whether every archived path lies within the restore request's declared
/// path scope. Directory ancestors are kept in an archive so that empty
/// directories and permissions can be restored; a literal directory pattern
/// therefore also permits its descendants. An invalid pattern is refused.
pub fn paths_match_patterns(paths: &[String], patterns: &[String]) -> (r: Result<bool>)
    ensures
        (exists|k: int|
            0 <= k < patterns.len() && !glob_compiles(portable(#[trigger] patterns[k]@))) ==> r is Err,
        r is Err ==> r->Err_0.code@ == "invalid-input"@,
        all_patterns_compile(patterns@) && glob_set_builds(portable_patterns(patterns@)) ==> r is Ok,
        r is Ok ==> r->Ok_0 == all_in_scope(
            texts(paths@),
            portable_patterns(patterns@),
            texts(paths@).map_values(|p: Seq<char>| globs_match(portable_patterns(patterns@), p)),
        ),
{
    let matcher = PathMatcher::new(patterns)?;
    let ghost pats = portable_patterns(patterns@);
    let mut matched: Vec<bool> = Vec::new();
    let mut i: usize = 0;
    while i < paths.len()
        invariant
            i <= paths.len(),
            matcher.patterns() == pats,
            matched.len() == i,
            forall|k: int|
                0 <= k < i ==> #[trigger] matched@[k] == globs_match(pats, paths@[k]@),
        decreases paths.len() - i,
    {
        matched.push(matcher.is_match(paths[i].as_str()));
        i = i + 1;
    }
    assert(matched@ =~= texts(paths@).map_values(|p: Seq<char>| globs_match(pats, p)));
    Ok(paths_within_scope(paths, patterns, matched.as_slice()))
}

/// Some pattern of `patterns` matches `path`.
pub open spec fn globs_match(patterns: Seq<Seq<char>>, path: Seq<char>) -> bool {
    exists|k: int| 0 <= k < patterns.len() && glob_is_match(#[trigger] patterns[k], path)
}

// ---------------------------------------------------------------------------
// Source paths
// ---------------------------------------------------------------------------

/// The successive paths below `cursor` named by the literal leading pieces
/// of a pattern: empty pieces are skipped and the first piece with a glob
/// metacharacter ends the list. Each is checked on disk for a symlink.
pub open spec fn symlink_probes(cursor: Seq<char>, pieces: Seq<Seq<char>>) -> Seq<Seq<char>>
    decreases pieces.len(),
{
    if pieces.len() == 0 || has_glob_meta(pieces[0]) {
        Seq::empty()
    } else if pieces[0].len() == 0 {
        symlink_probes(cursor, pieces.drop_first())
    } else {
        let next = join_path(cursor, pieces[0]);
        seq![next] + symlink_probes(next, pieces.drop_first())
    }
}

pub fn symlink_probe_paths(workspace: &str, pattern: &str) -> (r: Vec<String>)
    ensures
        texts(r@) == symlink_probes(workspace@, split_on(portable(pattern@), '/')),
{
    let text = portable_text(pattern);
    let v = chars_of(text.as_str());
    let ranges = split_ranges(&v, '/');
    let ghost pieces = split_on(portable(pattern@), '/');
    let mut r: Vec<String> = Vec::new();
    let mut cursor = workspace.to_owned();
    let mut i: usize = 0;
    assert(pieces.skip(0) =~= pieces);
    while i < ranges.len()
        invariant
            v@ == text@,
            text@ == portable(pattern@),
            pieces == split_on(v@, '/'),
            ranges.len() == pieces.len(),
            forall|k: int|
                #![trigger ranges[k]]
                0 <= k < ranges.len() ==> {
                    &&& ranges[k].0 <= ranges[k].1 && ranges[k].1 <= v.len()
                    &&& v@.subrange(ranges[k].0 as int, ranges[k].1 as int) == pieces[k]
                },
            i <= ranges.len(),
            texts(r@) + symlink_probes(cursor@, pieces.skip(i as int)) == symlink_probes(
                workspace@,
                pieces,
            ),
        decreases ranges.len() - i,
    {
        let (lo, hi) = ranges[i];
        let ghost piece = pieces[i as int];
        assert(v@.subrange(lo as int, hi as int) == piece);
        assert(pieces.skip(i as int)[0] == piece);
        assert(pieces.skip(i as int).drop_first() =~= pieces.skip(i + 1));
        let piece_chars = crate::text::slice_chars(&v, lo, hi);
        if holds_glob_meta(&piece_chars) {
            assert(symlink_probes(cursor@, pieces.skip(i as int)) == Seq::<Seq<char>>::empty());
            assert(texts(r@) =~= texts(r@) + Seq::<Seq<char>>::empty());
            return r;
        }
        if lo < hi {
            let part = text.as_str().substring_char(lo, hi);
            let next = crate::entry::join_path_text(cursor.as_str(), part);
            let ghost old_r = r@;
            r.push(next.clone());
            assert(texts(r@) =~= texts(old_r).push(next@));
            assert(seq![next@] + symlink_probes(next@, pieces.skip(i + 1)) == symlink_probes(
                cursor@,
                pieces.skip(i as int),
            ));
            assert(texts(r@) + symlink_probes(next@, pieces.skip(i + 1)) =~= texts(old_r) + (seq![
                next@,
            ] + symlink_probes(next@, pieces.skip(i + 1))));
            cursor = next;
        } else {
            assert(piece.len() == 0);
        }
        i = i + 1;
    }
    assert(pieces.skip(i as int) =~= Seq::<Seq<char>>::empty());
    assert(texts(r@) =~= texts(r@) + Seq::<Seq<char>>::empty());
    r
}

/// The normal names that lead from `workspace` down to `path`: the
/// components of `path` after those of `workspace`.
pub open spec fn names_below(workspace: Seq<char>, path: Seq<char>) -> Seq<Seq<char>> {
    normal_texts(components(path).skip(components(workspace).len() as int))
}

/// `workspace` joined with the first `j` of `names`.
pub open spec fn below(workspace: Seq<char>, names: Seq<Seq<char>>, j: int) -> Seq<char> {
    join_path(workspace, join_with(names.take(j), '/'))
}

/// The paths from `path` up to, but not including, `workspace`, nearest
/// first: `path` itself, then each parent directory below the workspace.
pub open spec fn ancestor_paths(workspace: Seq<char>, path: Seq<char>) -> Seq<Seq<char>> {
    let names = names_below(workspace, path);
    Seq::new(names.len(), |i: int| below(workspace, names, names.len() - i))
}

/// Joining one more normal name extends the path by `/` and the name.
proof fn lemma_below_step(workspace: Seq<char>, names: Seq<Seq<char>>, j: int)
    requires
        1 <= j < names.len(),
        forall|i: int| 0 <= i < names.len() ==> crate::paths::is_normal_name(#[trigger] names[i]),
    ensures
        below(workspace, names, j + 1) == join_path(below(workspace, names, j), names[j]),
        below(workspace, names, 1) == join_path(workspace, names[0]),
{
    let t = names.take(j);
    let u = names.take(j + 1);
    let jt = join_with(t, '/');
    let n = names[j];
    assert(names.take(1) =~= seq![names[0]]);
    assert(u.drop_last() =~= t);
    assert(u.last() == n);
    assert(join_with(u, '/') == jt + seq!['/'] + n);
    assert(crate::paths::is_normal_name(names[0]));
    assert(crate::paths::is_normal_name(n));
    assert(n[0] != '/') by {
        assert(!n.contains('/'));
    }
    // The joined prefix is not rooted and does not end in `/`.
    crate::text::lemma_join_starts_with_first(t, '/');
    assert(t[0] == names[0]);
    assert(jt[0] == names[0][0]) by {
        assert(jt.take(names[0].len() as int) == names[0]);
        assert(jt.take(names[0].len() as int)[0] == jt[0]);
    }
    assert(names[0][0] != '/') by {
        assert(!names[0].contains('/'));
    }
    lemma_join_last(t);
    assert(t.last() == names[j - 1]);
    assert(crate::paths::is_normal_name(names[j - 1]));
    assert(t.last().last() != '/') by {
        assert(!names[j - 1].contains('/'));
        assert(names[j - 1][names[j - 1].len() - 1] == names[j - 1].last());
    }
    let rest = jt + seq!['/'] + n;
    assert(rest[0] == jt[0]);
    if workspace.len() == 0 {
    } else if workspace.last() == '/' {
        assert(workspace + rest =~= (workspace + jt) + seq!['/'] + n);
        assert((workspace + jt).last() == jt.last());
    } else {
        assert(workspace + seq!['/'] + rest =~= (workspace + seq!['/'] + jt) + seq!['/'] + n);
        assert((workspace + seq!['/'] + jt).last() == jt.last());
    }
}

/// A join of non-empty parts ends with the last character of the last part.
proof fn lemma_join_last(parts: Seq<Seq<char>>)
    requires
        parts.len() > 0,
        parts.last().len() > 0,
    ensures
        join_with(parts, '/').len() > 0,
        join_with(parts, '/').last() == parts.last().last(),
{
    if parts.len() > 1 {
        let j = join_with(parts.drop_last(), '/');
        assert((j + seq!['/'] + parts.last()).last() == parts.last().last());
    }
}

/// `path` and its ancestors below `workspace`, nearest first, each written
/// as `workspace` joined with the names below it: what a save records when
/// it takes a path together with the directories that lead to it. A path
/// outside the workspace, or with `..` below it, is refused as the archive
/// name of the path itself would be.
pub fn ancestors_below(workspace: &str, path: &str) -> (r: Result<Vec<String>>)
    ensures
        !path_starts_with(path@, workspace@) ==> fails_with(
            r,
            "invalid-path"@,
            "path escapes workspace"@,
        ),
        path_starts_with(path@, workspace@) && !all_normal(
            components(path@).skip(components(workspace@).len() as int),
        ) ==> fails_with(r, "invalid-path"@, "archive path is not portable"@),
        path_starts_with(path@, workspace@) && all_normal(
            components(path@).skip(components(workspace@).len() as int),
        ) ==> r is Ok && texts(r->Ok_0@) == ancestor_paths(workspace@, path@),
{
    if !crate::config::components_prefix(path, workspace) {
        return Err(CacheError::new("invalid-path", "path escapes workspace"));
    }
    let wv = chars_of(workspace);
    let pv = chars_of(path);
    let wc = components_of(&wv);
    let pc = components_of(&pv);
    let from = wc.len();
    let ghost p = components(path@);
    let ghost rest = p.skip(from as int);
    if !normal_from(&pc, from) {
        assert(!all_normal(rest)) by {
            let k = choose|k: int| from <= k < pc.len() && (#[trigger] pc@[k]).kind
                != CompKind::Normal;
            assert(rest[k - from].0 == pc@[k].kind);
        }
        return Err(CacheError::new("invalid-path", "archive path is not portable"));
    }
    assert(all_normal(rest)) by {
        assert forall|k: int| 0 <= k < rest.len() implies (#[trigger] rest[k]).0
            == CompKind::Normal by {
            assert(rest[k].0 == pc@[k + from].kind);
        }
    }
    let ghost names = names_below(workspace@, path@);
    proof {
        crate::paths::lemma_normal_texts_all_normal(rest);
        crate::paths::lemma_normal_components_are_names(path@);
        assert forall|i: int| 0 <= i < names.len() implies crate::paths::is_normal_name(
            #[trigger] names[i],
        ) by {
            assert(names[i] == rest[i].1);
            assert(rest[i] == p[i + from]);
        }
    }
    let mut forward: Vec<String> = Vec::new();
    let mut cursor = workspace.to_owned();
    let mut k = from;
    while k < pc.len()
        invariant
            pv@ == path@,
            comps_match(pv@, pc@, p),
            from <= k <= pc.len(),
            rest == p.skip(from as int),
            names == normal_texts(rest),
            names.len() == rest.len(),
            rest.len() == pc.len() - from,
            forall|i: int| 0 <= i < rest.len() ==> names[i] == (#[trigger] rest[i]).1,
            forall|i: int| 0 <= i < names.len() ==> crate::paths::is_normal_name(#[trigger] names[i]),
            forward.len() == k - from,
            forall|i: int| 0 <= i < forward.len() ==> (#[trigger] forward@[i])@ == below(workspace@, names, i + 1),
            k > from ==> cursor@ == below(workspace@, names, k - from),
            k == from ==> cursor@ == workspace@,
        decreases pc.len() - k,
    {
        let c = &pc[k];
        let ghost j = k - from;
        assert(rest[j] == p[k as int]);
        assert(comp_view(pv@, pc@[k as int]) == p[k as int]);
        let name = path.substring_char(c.start, c.end);
        assert(name@ == names[j]);
        let next = crate::entry::join_path_text(cursor.as_str(), name);
        proof {
            if j == 0 {
                if names.len() > 1 {
                    lemma_below_step(workspace@, names, 1);
                } else {
                    assert(names.take(1) =~= seq![names[0]]);
                }
            } else {
                lemma_below_step(workspace@, names, j);
            }
        }
        forward.push(next.clone());
        cursor = next;
        k = k + 1;
    }
    let n = forward.len();
    let mut r: Vec<String> = Vec::new();
    let mut i: usize = 0;
    while i < n
        invariant
            n == forward.len(),
            n == names.len(),
            forall|q: int| 0 <= q < n ==> (#[trigger] forward@[q])@ == below(workspace@, names, q + 1),
            i <= n,
            r.len() == i,
            forall|q: int| 0 <= q < i ==> (#[trigger] r@[q])@ == below(workspace@, names, n - q),
        decreases n - i,
    {
        r.push(forward[n - 1 - i].clone());
        i = i + 1;
    }
    assert(texts(r@) =~= ancestor_paths(workspace@, path@));
    Ok(r)
}

/// What `stat` says of a source path, decided into an archive entry: no
/// symlinks, no special files, no hard-linked files, at most 1 GiB.
pub open spec fn source_kind(
    is_symlink: bool,
    is_file: bool,
    is_dir: bool,
    links: u64,
    len: u64,
) -> core::result::Result<EntryKind, (Seq<char>, Seq<char>)> {
    if is_symlink {
        Err(("unsupported-file"@, "symlinks are unsupported"@))
    } else if !is_file && !is_dir {
        Err(("unsupported-file"@, "special files are unsupported"@))
    } else if is_file && links != 1 {
        Err(("unsupported-file"@, "hard-linked files are unsupported"@))
    } else if len > MAX_FILE_BYTES {
        Err(("file-limit"@, "file exceeds 1 GiB"@))
    } else if is_file {
        Ok(EntryKind::File)
    } else {
        Ok(EntryKind::Directory)
    }
}

/// Modification time in nanoseconds since the epoch.
pub open spec fn nanos_of(seconds: i64, nanoseconds: i64) -> int {
    seconds * 1_000_000_000 + nanoseconds
}

pub fn modified_nanos(seconds: i64, nanoseconds: i64) -> (r: i128)
    ensures
        r == nanos_of(seconds, nanoseconds),
{
    assert(-1_000_000_000 * 0x8000_0000_0000_0000 <= seconds * 1_000_000_000
        <= 1_000_000_000 * 0x7fff_ffff_ffff_ffff) by (nonlinear_arith);
    (seconds as i128) * 1_000_000_000 + (nanoseconds as i128)
}

/// The archive entry for the source path named `relative`, from what `stat`
/// reported of it (`mode` keeps its permission bits only).
pub fn snapshot_entry(
    relative: String,
    absolute: String,
    is_symlink: bool,
    is_file: bool,
    is_dir: bool,
    links: u64,
    len: u64,
    mode: u32,
    seconds: i64,
    nanoseconds: i64,
    device: u64,
    inode: u64,
) -> (r: Result<ArchiveEntry>)
    ensures
        match source_kind(is_symlink, is_file, is_dir, links, len) {
            Err(e) => fails_with(r, e.0, e.1),
            Ok(kind) => r is Ok && r->Ok_0 == (ArchiveEntry {
                relative,
                absolute,
                kind,
                mode: mode & 0o777,
                size: len,
                modified_nanos: nanos_of(seconds, nanoseconds) as i128,
                device,
                inode,
            }),
        },
{
    if is_symlink {
        return Err(CacheError::new("unsupported-file", "symlinks are unsupported"));
    }
    let kind = if is_file {
        EntryKind::File
    } else if is_dir {
        EntryKind::Directory
    } else {
        return Err(CacheError::new("unsupported-file", "special files are unsupported"));
    };
    if kind == EntryKind::File && links != 1 {
        return Err(CacheError::new("unsupported-file", "hard-linked files are unsupported"));
    }
    if len > MAX_FILE_BYTES {
        return Err(CacheError::new("file-limit", "file exceeds 1 GiB"));
    }
    Ok(
        ArchiveEntry {
            relative,
            absolute,
            kind,
            mode: mode & 0o777,
            size: len,
            modified_nanos: modified_nanos(seconds, nanoseconds),
            device,
            inode,
        },
    )
}

// ---------------------------------------------------------------------------
// Collected entries
// ---------------------------------------------------------------------------

/// The entries of an archive in the making, keyed and ordered by their
/// portable name; the first entry recorded for a name is kept.
pub struct EntrySet {
    keys: Vec<Vec<char>>,
    entries: Vec<ArchiveEntry>,
}

impl EntrySet {
    #[verifier::type_invariant]
    spec fn well_formed(self) -> bool {
        &&& self.keys.len() == self.entries.len()
        &&& forall|i: int| 0 <= i < self.keys.len() ==> (#[trigger] self.keys@[i])@ == self.entries@[i].relative@
        &&& crate::sorted::strictly_sorted(crate::sorted::keys_view(self.keys@))
    }

    /// The entries, in increasing order of their names.
    pub closed spec fn view(&self) -> Seq<ArchiveEntry> {
        self.entries@
    }

    pub fn new() -> (r: EntrySet)
        ensures
            r.view() == Seq::<ArchiveEntry>::empty(),
    {
        EntrySet { keys: Vec::new(), entries: Vec::new() }
    }

    pub fn len(&self) -> (r: usize)
        ensures
            r == self.view().len(),
    {
        proof {
            use_type_invariant(self);
        }
        self.entries.len()
    }

    /// Adds `entry` unless an entry of the same name is already present;
    /// returns whether it was added.
    pub fn insert_if_absent(&mut self, entry: ArchiveEntry) -> (added: bool)
        ensures
            added <==> forall|i: int| 0 <= i < old(self).view().len() ==> (#[trigger] old(self).view()[i]).relative@ != entry.relative@,
            !added ==> final(self).view() == old(self).view(),
            added ==> exists|pos: int|
                0 <= pos <= old(self).view().len() && final(self).view() == old(self).view().insert(pos, entry),
    {
        proof {
            use_type_invariant(&*self);
        }
        let key = chars_of(entry.relative.as_str());
        let (found, pos) = crate::sorted::find_key(&self.keys, &key);
        if found {
            assert(old(self).view()[pos as int].relative@ == entry.relative@);
            return false;
        }
        assert forall|i: int| 0 <= i < old(self).view().len() implies (#[trigger] old(self).view()[i]).relative@ != entry.relative@ by {
            assert(self.keys@[i]@ != key@);
        }
        let ghost kv = crate::sorted::keys_view(self.keys@);
        proof {
            assert forall|i: int| 0 <= i < pos implies crate::text::lex_lt(#[trigger] kv[i], key@) by {
                assert(kv[i] == self.keys@[i]@);
            }
            assert forall|i: int| pos <= i < kv.len() implies crate::text::lex_lt(key@, #[trigger] kv[i]) by {
                assert(kv[i] == self.keys@[i]@);
            }
            crate::sorted::lemma_insert_sorted(kv, pos as int, key@);
        }
        let mut previous = EntrySet::new();
        std::mem::swap(self, &mut previous);
        let EntrySet { mut keys, mut entries } = previous;
        let ghost old_keys = keys@;
        let ghost old_entries = entries@;
        keys.insert(pos, key);
        entries.insert(pos, entry);
        assert(crate::sorted::keys_view(keys@) =~= kv.insert(pos as int, key@));
        assert forall|i: int| 0 <= i < keys.len() implies (#[trigger] keys@[i])@ == entries@[i].relative@ by {
            if i < pos {
                assert(keys@[i] == old_keys[i] && entries@[i] == old_entries[i]);
            } else if i > pos {
                assert(keys@[i] == old_keys[i - 1] && entries@[i] == old_entries[i - 1]);
            }
        }
        *self = EntrySet { keys, entries };
        true
    }

    /// The entries, in increasing order of their names.
    pub fn into_entries(self) -> (r: Vec<ArchiveEntry>)
        ensures
            r@ == self.view(),
            forall|i: int, j: int|
                0 <= i < j < r.len() ==> crate::text::lex_lt(
                    #[trigger] r@[i].relative@,
                    #[trigger] r@[j].relative@,
                ),
    {
        proof {
            use_type_invariant(&self);
            assert forall|i: int, j: int| 0 <= i < j < self.entries.len() implies crate::text::lex_lt(
                #[trigger] self.entries@[i].relative@,
                #[trigger] self.entries@[j].relative@,
            ) by {
                assert(crate::sorted::keys_view(self.keys@)[i] == self.keys@[i]@);
                assert(crate::sorted::keys_view(self.keys@)[j] == self.keys@[j]@);
            }
        }
        self.entries
    }
}

/// The total size of the regular files among `entries`.
pub open spec fn file_bytes(entries: Seq<ArchiveEntry>) -> int
    decreases entries.len(),
{
    if entries.len() == 0 {
        0
    } else {
        file_bytes(entries.drop_last()) + if entries.last().kind == EntryKind::File {
            entries.last().size as int
        } else {
            0
        }
    }
}

pub proof fn lemma_file_bytes_monotone(entries: Seq<ArchiveEntry>, n: int)
    requires
        0 <= n <= entries.len(),
    ensures
        0 <= file_bytes(entries.take(n)) <= file_bytes(entries),
    decreases entries.len() - n,
{
    if n < entries.len() {
        lemma_file_bytes_monotone(entries, n + 1);
        assert(entries.take(n + 1).drop_last() =~= entries.take(n));
    } else {
        assert(entries.take(n) =~= entries);
    }
    lemma_file_bytes_nonnegative(entries.take(n));
}

pub proof fn lemma_file_bytes_nonnegative(entries: Seq<ArchiveEntry>)
    ensures
        file_bytes(entries) >= 0,
    decreases entries.len(),
{
    if entries.len() > 0 {
        lemma_file_bytes_nonnegative(entries.drop_last());
    }
}

/// An archive may hold at most 100,000 entries.
pub fn check_entry_count(count: usize) -> (r: Result<()>)
    ensures
        r is Ok <==> count <= MAX_ENTRIES,
        r is Err ==> fails_with(r, "entry-limit"@, "archive exceeds 100,000 entries"@),
{
    if count > MAX_ENTRIES {
        return Err(CacheError::new("entry-limit", "archive exceeds 100,000 entries"));
    }
    Ok(())
}

/// The limits on collected entries: at most 100,000 entries and at most 8 GiB
/// of file content. Returns the content size.
pub fn check_collected(entries: &Vec<ArchiveEntry>) -> (r: Result<u64>)
    ensures
        entries.len() > MAX_ENTRIES ==> fails_with(r, "entry-limit"@, "archive exceeds 100,000 entries"@),
        entries.len() <= MAX_ENTRIES && file_bytes(entries@) > u64::MAX ==> fails_with(
            r,
            "size-limit"@,
            "archive size overflow"@,
        ),
        entries.len() <= MAX_ENTRIES && file_bytes(entries@) <= u64::MAX && file_bytes(entries@)
            > MAX_EXTRACTED_BYTES ==> fails_with(r, "size-limit"@, "archive exceeds 8 GiB"@),
        r is Ok <==> entries.len() <= MAX_ENTRIES && file_bytes(entries@) <= MAX_EXTRACTED_BYTES,
        r is Ok ==> r->Ok_0 == file_bytes(entries@),
{
    check_entry_count(entries.len())?;
    let mut total: u64 = 0;
    let mut i: usize = 0;
    while i < entries.len()
        invariant
            i <= entries.len(),
            entries.len() <= MAX_ENTRIES,
            total == file_bytes(entries@.take(i as int)),
        decreases entries.len() - i,
    {
        assert(entries@.take(i + 1).drop_last() =~= entries@.take(i as int));
        let entry = &entries[i];
        if entry.kind == EntryKind::File {
            if entry.size > u64::MAX - total {
                proof {
                    lemma_file_bytes_monotone(entries@, i + 1);
                }
                return Err(CacheError::new("size-limit", "archive size overflow"));
            }
            total = total + entry.size;
        }
        i = i + 1;
    }
    assert(entries@.take(i as int) =~= entries@);
    if total > MAX_EXTRACTED_BYTES {
        return Err(CacheError::new("size-limit", "archive exceeds 8 GiB"));
    }
    Ok(total)
}

// ---------------------------------------------------------------------------
// Writing an archive
// ---------------------------------------------------------------------------

/// The tar header's modification time: whole seconds, never negative
/// (`(nanos / 10^9).max(0) as u64`).
pub fn header_mtime(nanos: i128) -> (r: u64)
    ensures
        nanos < 1_000_000_000 ==> r == 0,
        nanos >= 1_000_000_000 ==> r == ((nanos / 1_000_000_000) as u64),
{
    if nanos < 1_000_000_000 {
        0
    } else {
        #[verifier::truncate]
        ((nanos / 1_000_000_000) as u64)
    }
}

/// The tar header's size: the file's size, or 0 for a directory.
pub fn header_size(entry: &ArchiveEntry) -> (r: u64)
    ensures
        r == if entry.kind == EntryKind::File { entry.size } else { 0 },
{
    if entry.kind == EntryKind::File {
        entry.size
    } else {
        0
    }
}

/// A source file opened for streaming is still the snapshotted file.
pub fn opened_unchanged(entry: &ArchiveEntry, is_file: bool, links: u64, len: u64, device: u64, inode: u64) -> (r: bool)
    ensures
        r == (is_file && links == 1 && len == entry.size && device == entry.device && inode
            == entry.inode),
{
    is_file && links == 1 && len == entry.size && device == entry.device && inode == entry.inode
}

/// A source file after streaming is still the snapshotted file, unmodified.
pub fn streamed_unchanged(
    entry: &ArchiveEntry,
    is_file: bool,
    is_symlink: bool,
    links: u64,
    len: u64,
    device: u64,
    inode: u64,
    modified: i128,
) -> (r: bool)
    ensures
        r == (is_file && !is_symlink && links == 1 && len == entry.size && device == entry.device
            && inode == entry.inode && modified == entry.modified_nanos),
{
    is_file && !is_symlink && links == 1 && len == entry.size && device == entry.device && inode
        == entry.inode && modified == entry.modified_nanos
}

/// After the whole archive is written, every source path is still what was
/// snapshotted: same kind, size, device, inode and modification time.
pub fn source_unchanged(
    entry: &ArchiveEntry,
    is_symlink: bool,
    is_file: bool,
    is_dir: bool,
    links: u64,
    len: u64,
    device: u64,
    inode: u64,
    modified: i128,
) -> (r: bool)
    ensures
        r == (!is_symlink && (if entry.kind == EntryKind::File {
            is_file && links == 1
        } else {
            is_dir
        }) && len == entry.size && device == entry.device && inode == entry.inode && modified
            == entry.modified_nanos),
{
    let expected_file = entry.kind == EntryKind::File;
    !(is_symlink || (expected_file && (!is_file || links != 1)) || (!expected_file && !is_dir)
        || len != entry.size || device != entry.device || inode != entry.inode || modified
        != entry.modified_nanos)
}

/// A write of `len` more bytes keeps the compressed archive within 2 GiB.
pub fn compressed_write_allowed(written: u64, len: u64) -> (r: bool)
    ensures
        r == (written + len <= MAX_COMPRESSED_BYTES),
{
    written.saturating_add(len) <= MAX_COMPRESSED_BYTES
}

} // verus!
