//! Action inputs and the cache context: the strict input grammar, the cache
//! root and workspace paths, and the platform.
use vstd::prelude::*;

use crate::error::{fails_with, CacheError, Result};
use crate::paths::{
    components, components_of, dot_dot, has_parent, is_rooted, lemma_components_shape,
    normal_texts, push_normal_texts, Comp, CompKind,
};
use crate::text::{
    chars_of, is_whitespace_char, is_ws, join_with, range_equals, split_on, split_ranges,
    text_equal, trim, trim_end, trim_start,
};

verus! {

/// Where the cache lives and for whom: the normalized cache root and
/// workspace, the repository's numeric id and the runner architecture.
#[derive(Debug, Clone)]
pub struct CacheContext {
    pub cache_root: String,
    pub workspace: String,
    pub repository_id: String,
    pub arch: String,
}

// ---------------------------------------------------------------------------
// Lists and booleans
// ---------------------------------------------------------------------------

/// The trimmed lines of `lines` that are not empty, in order.
pub open spec fn nonempty_trimmed(lines: Seq<Seq<char>>) -> Seq<Seq<char>>
    decreases lines.len(),
{
    if lines.len() == 0 {
        Seq::empty()
    } else {
        let before = nonempty_trimmed(lines.drop_last());
        let t = trim(lines.last());
        if t.len() > 0 {
            before.push(t)
        } else {
            before
        }
    }
}

/// A newline-delimited list: lines (LF or CRLF) trimmed, blank lines dropped.
pub open spec fn parsed_lines(value: Seq<char>) -> Seq<Seq<char>> {
    nonempty_trimmed(split_on(value, '\n'))
}

/// Every line of a parsed list is non-empty and already trimmed.
pub proof fn lemma_parsed_lines_trimmed(value: Seq<char>)
    ensures
        forall|k: int|
            0 <= k < parsed_lines(value).len() ==> (#[trigger] parsed_lines(value)[k]).len() > 0
                && trim(parsed_lines(value)[k]) == parsed_lines(value)[k],
{
    lemma_nonempty_trimmed(split_on(value, '\n'));
}

proof fn lemma_nonempty_trimmed(lines: Seq<Seq<char>>)
    ensures
        forall|k: int|
            0 <= k < nonempty_trimmed(lines).len() ==> (#[trigger] nonempty_trimmed(lines)[k]).len()
                > 0 && trim(nonempty_trimmed(lines)[k]) == nonempty_trimmed(lines)[k],
    decreases lines.len(),
{
    if lines.len() > 0 {
        lemma_nonempty_trimmed(lines.drop_last());
        crate::text::lemma_trim_idempotent(lines.last());
        let before = nonempty_trimmed(lines.drop_last());
        assert forall|k: int| 0 <= k < nonempty_trimmed(lines).len() implies (
        #[trigger] nonempty_trimmed(lines)[k]).len() > 0 && trim(nonempty_trimmed(lines)[k])
            == nonempty_trimmed(lines)[k] by {
            if k < before.len() {
                assert(nonempty_trimmed(lines)[k] == before[k]);
            }
        }
    }
}

/// Each line of `nonempty_trimmed(lines)` is some line of `lines`, trimmed.
proof fn lemma_nonempty_trimmed_origin(lines: Seq<Seq<char>>)
    ensures
        forall|k: int|
            0 <= k < nonempty_trimmed(lines).len() ==> exists|j: int|
                0 <= j < lines.len() && #[trigger] nonempty_trimmed(lines)[k] == trim(lines[j]),
    decreases lines.len(),
{
    if lines.len() > 0 {
        let before = nonempty_trimmed(lines.drop_last());
        lemma_nonempty_trimmed_origin(lines.drop_last());
        assert forall|k: int| 0 <= k < nonempty_trimmed(lines).len() implies exists|j: int|
            0 <= j < lines.len() && #[trigger] nonempty_trimmed(lines)[k] == trim(lines[j]) by {
            if k < before.len() {
                assert(nonempty_trimmed(lines)[k] == before[k]);
                let j = choose|j: int|
                    0 <= j < lines.drop_last().len() && before[k] == trim(lines.drop_last()[j]);
                assert(lines.drop_last()[j] == lines[j]);
            } else {
                assert(nonempty_trimmed(lines)[k] == trim(lines[lines.len() - 1]));
            }
        }
    }
}

/// Lines that are all non-empty and trimmed are kept as they are.
proof fn lemma_nonempty_trimmed_fixed(lines: Seq<Seq<char>>)
    requires
        forall|k: int|
            0 <= k < lines.len() ==> (#[trigger] lines[k]).len() > 0 && trim(lines[k]) == lines[k],
    ensures
        nonempty_trimmed(lines) == lines,
    decreases lines.len(),
{
    if lines.len() > 0 {
        lemma_nonempty_trimmed_fixed(lines.drop_last());
        assert(lines.drop_last().push(lines.last()) =~= lines);
    }
}

/// A parsed list written back one item per line parses to itself.
pub proof fn lemma_parsed_lines_roundtrip(value: Seq<char>)
    ensures
        parsed_lines(join_with(parsed_lines(value), '\n')) == parsed_lines(value),
{
    let lines = split_on(value, '\n');
    let r = parsed_lines(value);
    lemma_nonempty_trimmed(lines);
    if r.len() == 0 {
        let e = Seq::<char>::empty();
        assert(join_with(r, '\n') == e);
        assert(split_on(e, '\n') == seq![e]);
        assert(seq![e].drop_last() =~= Seq::<Seq<char>>::empty());
        assert(trim(e) == e);
        assert(seq![e].last() == e);
        assert(nonempty_trimmed(Seq::<Seq<char>>::empty()) == Seq::<Seq<char>>::empty());
        assert(nonempty_trimmed(seq![e]) =~= Seq::<Seq<char>>::empty());
    } else {
        crate::text::lemma_split_pieces_lack_sep(value, '\n');
        lemma_nonempty_trimmed_origin(lines);
        assert forall|k: int| 0 <= k < r.len() implies !(#[trigger] r[k]).contains('\n') by {
            let j = choose|j: int| 0 <= j < lines.len() && r[k] == trim(lines[j]);
            crate::text::lemma_trim_keeps_absent(lines[j], '\n');
        }
        crate::text::lemma_split_join(r, '\n');
        lemma_nonempty_trimmed_fixed(r);
    }
}

/// The range of `v[lo..hi]` left after trimming white space at both ends.
fn trim_range(v: &Vec<char>, lo: usize, hi: usize) -> (r: (usize, usize))
    requires
        lo <= hi <= v.len(),
    ensures
        lo <= r.0 <= r.1 <= hi,
        v@.subrange(r.0 as int, r.1 as int) == trim(v@.subrange(lo as int, hi as int)),
{
    let mut a = lo;
    while a < hi && is_whitespace_char(v[a])
        invariant
            lo <= a <= hi <= v.len(),
            trim_start(v@.subrange(lo as int, hi as int)) == trim_start(
                v@.subrange(a as int, hi as int),
            ),
        decreases hi - a,
    {
        assert(v@.subrange(a as int, hi as int).drop_first() =~= v@.subrange(a + 1, hi as int));
        a = a + 1;
    }
    let mut b = hi;
    while b > a && is_whitespace_char(v[b - 1])
        invariant
            lo <= a <= b <= hi <= v.len(),
            trim_end(v@.subrange(a as int, hi as int)) == trim_end(v@.subrange(a as int, b as int)),
        decreases b - a,
    {
        assert(v@.subrange(a as int, b as int).drop_last() =~= v@.subrange(a as int, b - 1));
        b = b - 1;
    }
    (a, b)
}

/// Splits a newline-delimited input into its non-blank, trimmed lines.
pub fn parse_lines(value: &str) -> (r: Vec<String>)
    ensures
        r@.map_values(|s: String| s@) == parsed_lines(value@),
{
    let v = chars_of(value);
    let ranges = split_ranges(&v, '\n');
    let ghost lines = split_on(value@, '\n');
    let mut r: Vec<String> = Vec::new();
    let mut i: usize = 0;
    while i < ranges.len()
        invariant
            v@ == value@,
            lines == split_on(value@, '\n'),
            ranges.len() == lines.len(),
            forall|k: int|
                #![trigger ranges[k]]
                0 <= k < ranges.len() ==> {
                    &&& ranges[k].0 <= ranges[k].1 && ranges[k].1 <= v.len()
                    &&& v@.subrange(ranges[k].0 as int, ranges[k].1 as int) == lines[k]
                },
            i <= ranges.len(),
            r@.map_values(|s: String| s@) == nonempty_trimmed(lines.take(i as int)),
        decreases ranges.len() - i,
    {
        let (lo, hi) = ranges[i];
        assert(v@.subrange(lo as int, hi as int) == lines[i as int]);
        assert(lines.take(i + 1).drop_last() =~= lines.take(i as int));
        assert(lines.take(i + 1).last() == lines[i as int]);
        let (a, b) = trim_range(&v, lo, hi);
        let ghost before = r@.map_values(|s: String| s@);
        if a < b {
            let line = value.substring_char(a, b).to_owned();
            r.push(line);
            assert(r@.map_values(|s: String| s@) =~= before.push(v@.subrange(a as int, b as int)));
        }
        i = i + 1;
    }
    assert(lines.take(i as int) =~= lines);
    r
}

/// Parses a boolean input, which must be exactly `true` or `false`.
pub fn parse_boolean(value: &str, name: &str) -> (r: Result<bool>)
    ensures
        value@ == "true"@ ==> r == Ok::<bool, CacheError>(true),
        value@ == "false"@ ==> r == Ok::<bool, CacheError>(false),
        value@ != "true"@ && value@ != "false"@ ==> fails_with(
            r,
            "invalid-input"@,
            name@ + " must be exactly true or false"@,
        ),
{
    proof {
        reveal_strlit("true");
        reveal_strlit("false");
        assert("true"@ != "false"@) by {
            assert("true"@[0] != "false"@[0]);
        }
    }
    if text_equal(value, "true") {
        Ok(true)
    } else if text_equal(value, "false") {
        Ok(false)
    } else {
        let mut message = name.to_owned();
        message.append(" must be exactly true or false");
        Err(CacheError { code: "invalid-input", message })
    }
}

/// A required input must not be empty.
pub fn required_input(value: &str, name: &str) -> (r: Result<String>)
    ensures
        value@.len() > 0 ==> r is Ok && r->Ok_0@ == value@,
        value@.len() == 0 ==> fails_with(r, "invalid-input"@, name@ + " is required"@),
{
    if value.is_empty() {
        let mut message = name.to_owned();
        message.append(" is required");
        return Err(CacheError { code: "invalid-input", message });
    }
    Ok(value.to_owned())
}

/// The cache root: the `cache-dir` input unless it is empty, else the
/// `CACHE_DIR` environment variable, else nothing (which is refused later).
pub fn select_cache_root(input: Option<&str>, environment: Option<&str>) -> (r: String)
    ensures
        input is Some && input->0@.len() > 0 ==> r@ == input->0@,
        !(input is Some && input->0@.len() > 0) && environment is Some ==> r@ == environment->0@,
        !(input is Some && input->0@.len() > 0) && environment is None ==> r@.len() == 0,
{
    match input {
        Some(value) if !value.is_empty() => value.to_owned(),
        _ => match environment {
            Some(value) => value.to_owned(),
            None => String::new(),
        },
    }
}

/// Checks that a cache key holds 1 to 512 UTF-8 bytes.
pub fn validate_key(value: &str) -> (r: Result<()>)
    ensures
        r is Ok <==> 0 < value.len() <= 512,
        r is Err ==> fails_with(r, "invalid-input"@, "key must contain 1-512 UTF-8 bytes"@),
{
    if value.len() == 0 || value.len() > 512 {
        return Err(CacheError::new("invalid-input", "key must contain 1-512 UTF-8 bytes"));
    }
    Ok(())
}

// ---------------------------------------------------------------------------
// Path patterns
// ---------------------------------------------------------------------------

/// A pattern with Windows separators written as `/`.
pub open spec fn portable(p: Seq<char>) -> Seq<char> {
    p.map_values(|c: char| if c == '\\' { '/' } else { c })
}

/// The pattern negates (`!...`), which is unsupported.
pub open spec fn pattern_negated(p: Seq<char>) -> bool {
    portable(p).len() > 0 && portable(p)[0] == '!'
}

/// The pattern is absolute or holds a `..` segment.
pub open spec fn pattern_escapes(p: Seq<char>) -> bool {
    is_rooted(portable(p)) || split_on(portable(p), '/').contains(dot_dot())
}

pub open spec fn pattern_ok(p: Seq<char>) -> bool {
    !pattern_negated(p) && !pattern_escapes(p)
}

/// `p` with every `\` replaced by `/`.
pub fn portable_chars(p: &str) -> (r: Vec<char>)
    ensures
        r@ == portable(p@),
{
    let v = chars_of(p);
    let mut r: Vec<char> = Vec::new();
    let mut i: usize = 0;
    while i < v.len()
        invariant
            v@ == p@,
            i <= v.len(),
            r@ == portable(p@).take(i as int),
        decreases v.len() - i,
    {
        let c = v[i];
        r.push(if c == '\\' { '/' } else { c });
        assert(portable(p@).take(i + 1) =~= portable(p@).take(i as int).push(portable(p@)[i as int]));
        i = i + 1;
    }
    assert(portable(p@).take(i as int) =~= portable(p@));
    r
}

/// Whether one of the `/`-separated segments of `v` is `..`.
pub fn has_dot_dot_segment(v: &Vec<char>) -> (r: bool)
    ensures
        r == split_on(v@, '/').contains(dot_dot()),
{
    let ranges = split_ranges(v, '/');
    let dd: Vec<char> = vec!['.', '.'];
    assert(dd@ =~= dot_dot());
    let mut i: usize = 0;
    while i < ranges.len()
        invariant
            dd@ == dot_dot(),
            ranges.len() == split_on(v@, '/').len(),
            forall|k: int|
                #![trigger ranges[k]]
                0 <= k < ranges.len() ==> {
                    &&& ranges[k].0 <= ranges[k].1 && ranges[k].1 <= v.len()
                    &&& v@.subrange(ranges[k].0 as int, ranges[k].1 as int) == split_on(v@, '/')[k]
                },
            i <= ranges.len(),
            forall|k: int| 0 <= k < i ==> split_on(v@, '/')[k] != dot_dot(),
        decreases ranges.len() - i,
    {
        let (lo, hi) = ranges[i];
        assert(v@.subrange(lo as int, hi as int) == split_on(v@, '/')[i as int]);
        if range_equals(v, lo, hi, &dd) {
            return true;
        }
        i = i + 1;
    }
    false
}

/// Checks the declared path patterns: at least one, none negated, all
/// workspace-relative.
pub fn validate_patterns(patterns: &[String]) -> (r: Result<()>)
    ensures
        patterns.len() == 0 ==> fails_with(
            r,
            "invalid-input"@,
            "path must contain at least one path"@,
        ),
        patterns.len() > 0 ==> (r is Ok <==> forall|i: int|
            0 <= i < patterns.len() ==> pattern_ok(#[trigger] patterns[i]@)),
        patterns.len() > 0 && r is Err ==> exists|i: int|
            0 <= i < patterns.len() && (forall|j: int|
                0 <= j < i ==> pattern_ok(#[trigger] patterns[j]@)) && !pattern_ok(
                #[trigger] patterns[i]@,
            ) && (if pattern_negated(patterns[i]@) {
                fails_with(r, "invalid-input"@, "negated globs are unsupported"@)
            } else {
                fails_with(r, "invalid-input"@, "paths must be workspace-relative"@)
            }),
{
    if patterns.len() == 0 {
        return Err(CacheError::new("invalid-input", "path must contain at least one path"));
    }
    let mut i: usize = 0;
    while i < patterns.len()
        invariant
            i <= patterns.len(),
            forall|j: int| 0 <= j < i ==> pattern_ok(#[trigger] patterns[j]@),
        decreases patterns.len() - i,
    {
        let portable = portable_chars(patterns[i].as_str());
        if portable.len() > 0 && portable[0] == '!' {
            return Err(CacheError::new("invalid-input", "negated globs are unsupported"));
        }
        if (portable.len() > 0 && portable[0] == '/') || has_dot_dot_segment(&portable) {
            return Err(CacheError::new("invalid-input", "paths must be workspace-relative"));
        }
        i = i + 1;
    }
    Ok(())
}

// ---------------------------------------------------------------------------
// Absolute paths
// ---------------------------------------------------------------------------

/// The normal form of an absolute path: `/` and its normal components.
pub open spec fn normalized(path: Seq<char>) -> Seq<char> {
    seq!['/'] + join_with(normal_texts(components(path)), '/')
}

/// Normalizes an absolute path, refusing relative paths and `..`.
pub fn normalize_absolute(path: &str, name: &str) -> (r: Result<String>)
    ensures
        !is_rooted(path@) ==> fails_with(r, "invalid-path"@, name@ + " must be absolute"@),
        is_rooted(path@) && has_parent(components(path@)) ==> fails_with(
            r,
            "invalid-path"@,
            name@ + " cannot contain parent traversal"@,
        ),
        is_rooted(path@) && !has_parent(components(path@)) ==> r is Ok && r->Ok_0@ == normalized(
            path@,
        ),
{
    let v = chars_of(path);
    if !(v.len() > 0 && v[0] == '/') {
        let mut message = name.to_owned();
        message.append(" must be absolute");
        return Err(CacheError { code: "invalid-path", message });
    }
    let comps = components_of(&v);
    let mut i: usize = 0;
    while i < comps.len()
        invariant
            v@ == path@,
            v.len() > 0 && v[0] == '/',
            i <= comps.len(),
            comps@.len() == components(path@).len(),
            forall|k: int|
                #![trigger comps[k]]
                0 <= k < comps.len() ==> comps[k].kind == components(path@)[k].0,
            forall|k: int| 0 <= k < i ==> (#[trigger] components(path@)[k]).0 != CompKind::Parent,
        decreases comps.len() - i,
    {
        if comps[i].kind == CompKind::Parent {
            assert(components(path@)[i as int].0 == CompKind::Parent);
            let mut message = name.to_owned();
            message.append(" cannot contain parent traversal");
            return Err(CacheError { code: "invalid-path", message });
        }
        i = i + 1;
    }
    let mut out = String::new();
    out.append("/");
    proof {
        reveal_strlit("/");
    }
    push_normal_texts(&mut out, path, &comps, 0);
    assert(comps@.skip(0).map_values(|c: Comp| crate::paths::comp_view(path@, c)) =~= components(
        path@,
    ));
    Ok(out)
}

/// Normalizing a normalized path changes nothing: the normal form of an
/// accepted absolute path is itself absolute, free of `..`, and its own
/// normal form.
pub proof fn lemma_normalized_is_stable(path: Seq<char>)
    requires
        is_rooted(path),
        !has_parent(components(path)),
    ensures
        is_rooted(normalized(path)),
        !has_parent(components(normalized(path))),
        normalized(normalized(path)) == normalized(path),
{
    let names = normal_texts(components(path));
    crate::paths::lemma_normal_texts_are_names(path);
    crate::paths::lemma_rooted_join_of_names(names);
    let root = seq![(CompKind::Root, Seq::<char>::empty())];
    crate::paths::lemma_normal_texts_concat(root, crate::paths::as_normal(names));
    crate::paths::lemma_normal_texts_as_normal(names);
    assert(normal_texts(root.drop_last()) =~= Seq::<Seq<char>>::empty());
    assert(normal_texts(root) =~= Seq::<Seq<char>>::empty());
    assert(Seq::<Seq<char>>::empty() + names =~= names);
    let cs = components(normalized(path));
    assert(!has_parent(cs)) by {
        if has_parent(cs) {
            let i = choose|i: int| 0 <= i < cs.len() && (#[trigger] cs[i]).0 == CompKind::Parent;
            if i > 0 {
                assert(cs[i] == crate::paths::as_normal(names)[i - 1]);
            }
        }
    }
}

// ---------------------------------------------------------------------------
// The cache context
// ---------------------------------------------------------------------------

/// Every character is an ASCII digit.
pub open spec fn all_digits(s: Seq<char>) -> bool {
    forall|i: int| 0 <= i < s.len() ==> '0' <= #[trigger] s[i] <= '9'
}

pub fn is_numeric(s: &str) -> (r: bool)
    ensures
        r == (s@.len() > 0 && all_digits(s@)),
{
    let v = chars_of(s);
    if v.len() == 0 {
        return false;
    }
    let mut i: usize = 0;
    while i < v.len()
        invariant
            v@ == s@,
            i <= v.len(),
            forall|k: int| 0 <= k < i ==> '0' <= #[trigger] v@[k] <= '9',
        decreases v.len() - i,
    {
        if !('0' <= v[i] && v[i] <= '9') {
            return false;
        }
        i = i + 1;
    }
    true
}

/// The architecture names this action supports, as it reports them.
pub open spec fn arch_name(arch: Seq<char>) -> Option<Seq<char>> {
    if arch == "x86_64"@ || arch == "x64"@ {
        Some("x64"@)
    } else if arch == "aarch64"@ || arch == "arm64"@ {
        Some("arm64"@)
    } else {
        None
    }
}

/// The supported architectures are x64 and arm64, each under both of its
/// spellings (`x86_64`/`x64`, `aarch64`/`arm64`), and the name a context
/// records for an architecture is itself accepted, as the same name: a
/// context's architecture checks again unchanged.
pub proof fn lemma_arch_names(arch: Seq<char>)
    ensures
        arch_name(arch) is Some <==> (arch == "x86_64"@ || arch == "x64"@ || arch == "aarch64"@
            || arch == "arm64"@),
        arch_name(arch) is Some ==> arch_name(arch_name(arch)->0) == arch_name(arch),
        (arch == "x86_64"@ || arch == "x64"@) ==> arch_name(arch) == Some("x64"@),
        (arch == "aarch64"@ || arch == "arm64"@) ==> arch_name(arch) == Some("arm64"@),
{
    reveal_strlit("x86_64");
    reveal_strlit("x64");
    reveal_strlit("aarch64");
    reveal_strlit("arm64");
}

/// The context that `check_platform` accepts can be checked again with the
/// architecture it records, and gives the same context: both spellings of
/// an architecture lead to a context that is accepted as it stands.
pub proof fn lemma_platform_arch_stable(
    root: Seq<char>,
    workspace: Seq<char>,
    repository_id: Seq<char>,
    os: Seq<char>,
    arch: Seq<char>,
)
    requires
        platform_problem(root, workspace, repository_id, os, arch) is None,
    ensures
        arch_name(arch) is Some,
        platform_problem(root, workspace, repository_id, os, arch_name(arch)->0) is None,
        arch_name(arch_name(arch)->0) == arch_name(arch),
{
    lemma_arch_names(arch);
}

/// `base`'s components are a prefix of `path`'s (`Path::starts_with`).
pub open spec fn path_starts_with(path: Seq<char>, base: Seq<char>) -> bool {
    let p = components(path);
    let b = components(base);
    b.len() <= p.len() && p.take(b.len() as int) == b
}

/// Whether path `p` starts with the components of `b`.
pub fn components_prefix(p: &str, b: &str) -> (r: bool)
    ensures
        r == path_starts_with(p@, b@),
{
    let pv = chars_of(p);
    let bv = chars_of(b);
    let pc = components_of(&pv);
    let bc = components_of(&bv);
    let ghost pcs = components(p@);
    let ghost bcs = components(b@);
    if bc.len() > pc.len() {
        return false;
    }
    let mut i: usize = 0;
    while i < bc.len()
        invariant
            bc.len() <= pc.len(),
            i <= bc.len(),
            crate::paths::comps_match(pv@, pc@, pcs),
            crate::paths::comps_match(bv@, bc@, bcs),
            pv@ == p@,
            bv@ == b@,
            pcs == components(p@),
            bcs == components(b@),
            pcs.take(i as int) == bcs.take(i as int),
        decreases bc.len() - i,
    {
        let x = &pc[i];
        let y = &bc[i];
        assert(crate::paths::comp_view(pv@, pc@[i as int]) == pcs[i as int]);
        assert(crate::paths::comp_view(bv@, bc@[i as int]) == bcs[i as int]);
        if x.kind != y.kind {
            assert(pcs.take(bcs.len() as int)[i as int] != bcs[i as int]);
            return false;
        }
        let same = crate::text::ranges_equal(&pv, x.start, x.end, &bv, y.start, y.end);
        if !same {
            assert(pcs.take(bcs.len() as int)[i as int] != bcs[i as int]);
            return false;
        }
        assert(pcs.take(i + 1) =~= pcs.take(i as int).push(pcs[i as int]));
        assert(bcs.take(i + 1) =~= bcs.take(i as int).push(bcs[i as int]));
        i = i + 1;
    }
    assert(bcs.take(i as int) =~= bcs);
    true
}

/// The first check on the inputs of a context that fails, if any: its error
/// class and message.
pub open spec fn platform_problem(
    root: Seq<char>,
    workspace: Seq<char>,
    repository_id: Seq<char>,
    os: Seq<char>,
    arch: Seq<char>,
) -> Option<(Seq<char>, Seq<char>)> {
    if root.len() == 0 {
        Some(("invalid-root"@, "cache-dir or CACHE_DIR is required"@))
    } else if workspace.len() == 0 {
        Some(("invalid-environment"@, "GITHUB_WORKSPACE is required"@))
    } else if !is_rooted(root) {
        Some(("invalid-path"@, "cache-dir must be absolute"@))
    } else if has_parent(components(root)) {
        Some(("invalid-path"@, "cache-dir cannot contain parent traversal"@))
    } else if !is_rooted(workspace) {
        Some(("invalid-path"@, "GITHUB_WORKSPACE must be absolute"@))
    } else if has_parent(components(workspace)) {
        Some(("invalid-path"@, "GITHUB_WORKSPACE cannot contain parent traversal"@))
    } else if !(repository_id.len() > 0 && all_digits(repository_id)) {
        Some(("invalid-environment"@, "GITHUB_REPOSITORY_ID must be numeric"@))
    } else if os != "linux"@ {
        Some(("unsupported-platform"@, "v1 supports Linux only"@))
    } else if arch_name(arch) is None {
        Some(("unsupported-platform"@, "v1 supports x64 and arm64 only"@))
    } else if path_starts_with(normalized(root), normalized(workspace)) || path_starts_with(
        normalized(workspace),
        normalized(root),
    ) {
        Some(("invalid-root"@, "cache-dir and workspace cannot contain one another"@))
    } else {
        None
    }
}

impl CacheContext {
    /// Checks the inputs of a context that need no file system: both paths
    /// present, absolute and free of `..`, a numeric repository id, Linux,
    /// a supported architecture, and a root and workspace that do not
    /// contain one another. Returns the context with normalized paths; the
    /// cache root itself is checked on disk afterwards.
    pub fn check_platform(
        root: &str,
        workspace: &str,
        repository_id: &str,
        os: &str,
        arch: &str,
    ) -> (r: Result<CacheContext>)
        ensures
            match platform_problem(root@, workspace@, repository_id@, os@, arch@) {
                None => r is Ok && r->Ok_0.cache_root@ == normalized(root@) && r->Ok_0.workspace@
                    == normalized(workspace@) && r->Ok_0.repository_id@ == repository_id@ && Some(
                    r->Ok_0.arch@,
                ) == arch_name(arch@),
                Some(p) => fails_with(r, p.0, p.1),
            },
    {
        if root.is_empty() {
            return Err(CacheError::new("invalid-root", "cache-dir or CACHE_DIR is required"));
        }
        if workspace.is_empty() {
            return Err(CacheError::new("invalid-environment", "GITHUB_WORKSPACE is required"));
        }
        proof {
            reveal_strlit("cache-dir");
            reveal_strlit("GITHUB_WORKSPACE");
            reveal_strlit(" must be absolute");
            reveal_strlit(" cannot contain parent traversal");
            reveal_strlit("cache-dir must be absolute");
            reveal_strlit("cache-dir cannot contain parent traversal");
            reveal_strlit("GITHUB_WORKSPACE must be absolute");
            reveal_strlit("GITHUB_WORKSPACE cannot contain parent traversal");
            assert("cache-dir"@ + " must be absolute"@ =~= "cache-dir must be absolute"@);
            assert("cache-dir"@ + " cannot contain parent traversal"@
                =~= "cache-dir cannot contain parent traversal"@);
            assert("GITHUB_WORKSPACE"@ + " must be absolute"@ =~= "GITHUB_WORKSPACE must be absolute"@);
            assert("GITHUB_WORKSPACE"@ + " cannot contain parent traversal"@
                =~= "GITHUB_WORKSPACE cannot contain parent traversal"@);
        }
        let cache_root = normalize_absolute(root, "cache-dir")?;
        let workspace = normalize_absolute(workspace, "GITHUB_WORKSPACE")?;
        if !is_numeric(repository_id) {
            return Err(CacheError::new("invalid-environment", "GITHUB_REPOSITORY_ID must be numeric"));
        }
        if !text_equal(os, "linux") {
            return Err(CacheError::new("unsupported-platform", "v1 supports Linux only"));
        }
        let arch_text: &str = if text_equal(arch, "x86_64") || text_equal(arch, "x64") {
            "x64"
        } else if text_equal(arch, "aarch64") || text_equal(arch, "arm64") {
            "arm64"
        } else {
            return Err(CacheError::new("unsupported-platform", "v1 supports x64 and arm64 only"));
        };
        if components_prefix(cache_root.as_str(), workspace.as_str()) || components_prefix(
            workspace.as_str(),
            cache_root.as_str(),
        ) {
            return Err(CacheError::new("invalid-root", "cache-dir and workspace cannot contain one another"));
        }
        Ok(CacheContext {
            cache_root,
            workspace,
            repository_id: repository_id.to_owned(),
            arch: arch_text.to_owned(),
        })
    }
}

/// The paths `/c1`, `/c1/c2`, ... of the successive prefixes of `path`'s
/// normal components; each is checked on disk for symlinks.
pub open spec fn root_prefix(path: Seq<char>, k: int) -> Seq<char> {
    seq!['/'] + join_with(normal_texts(components(path)).take(k + 1), '/')
}

pub fn root_prefixes(path: &str) -> (r: Vec<String>)
    ensures
        r.len() == normal_texts(components(path@)).len(),
        forall|k: int| 0 <= k < r.len() ==> (#[trigger] r[k])@ == root_prefix(path@, k),
{
    let v = chars_of(path);
    let comps = components_of(&v);
    let ghost cs = components(path@);
    let mut r: Vec<String> = Vec::new();
    let mut cursor = String::new();
    cursor.append("/");
    proof {
        reveal_strlit("/");
    }
    let mut i: usize = 0;
    assert(cs.take(0) =~= Seq::<(CompKind, Seq<char>)>::empty());
    while i < comps.len()
        invariant
            v@ == path@,
            crate::paths::comps_match(v@, comps@, cs),
            cs == components(path@),
            i <= comps.len(),
            r.len() == normal_texts(cs.take(i as int)).len(),
            forall|k: int|
                0 <= k < r.len() ==> (#[trigger] r[k])@ == seq!['/'] + join_with(
                    normal_texts(cs.take(i as int)).take(k + 1),
                    '/',
                ),
            cursor@ == seq!['/'] + join_with(normal_texts(cs.take(i as int)), '/'),
        decreases comps.len() - i,
    {
        let ghost before = normal_texts(cs.take(i as int));
        assert(crate::paths::comp_view(v@, comps@[i as int]) == cs[i as int]);
        assert(cs.take(i + 1).drop_last() =~= cs.take(i as int));
        assert(cs.take(i + 1).last() == cs[i as int]);
        let c = &comps[i];
        if c.kind == CompKind::Normal {
            let ghost text = v@.subrange(c.start as int, c.end as int);
            let ghost after = before.push(text);
            assert(normal_texts(cs.take(i + 1)) == after);
            if r.len() > 0 {
                cursor.append("/");
                proof {
                    reveal_strlit("/");
                }
                assert(after.drop_last() =~= before);
            } else {
                assert(after =~= seq![text]);
            }
            crate::text::push_range(&mut cursor, path, c.start, c.end);
            let ghost old_r = r@;
            r.push(cursor.clone());
            assert forall|k: int| 0 <= k < r.len() implies (#[trigger] r[k])@ == seq!['/'] + join_with(
                after.take(k + 1),
                '/',
            ) by {
                if k < old_r.len() {
                    assert(r[k] == old_r[k]);
                    assert(after.take(k + 1) =~= before.take(k + 1));
                } else {
                    assert(after.take(k + 1) =~= after);
                }
            }
        } else {
            assert(normal_texts(cs.take(i + 1)) == before);
        }
        i = i + 1;
    }
    assert(cs.take(i as int) =~= cs);
    r
}

/// The on-disk checks of the cache root, given what `stat` reported.
pub fn check_root_metadata(is_dir: bool, owner_uid: u32, effective_uid: u32, mode: u32) -> (r:
    Result<()>)
    ensures
        !is_dir ==> fails_with(r, "invalid-root"@, "cache-dir must be a directory"@),
        is_dir && owner_uid != effective_uid ==> fails_with(
            r,
            "invalid-root"@,
            "cache-dir must be owned by the runner user"@,
        ),
        is_dir && owner_uid == effective_uid && mode & 0o777 != 0o700 ==> fails_with(
            r,
            "invalid-root"@,
            "cache-dir mode must be 0700"@,
        ),
        r is Ok <==> is_dir && owner_uid == effective_uid && mode & 0o777 == 0o700,
{
    if !is_dir {
        return Err(CacheError::new("invalid-root", "cache-dir must be a directory"));
    }
    if owner_uid != effective_uid {
        return Err(CacheError::new("invalid-root", "cache-dir must be owned by the runner user"));
    }
    if mode & 0o777 != 0o700 {
        return Err(CacheError::new("invalid-root", "cache-dir mode must be 0700"));
    }
    Ok(())
}

} // verus!
