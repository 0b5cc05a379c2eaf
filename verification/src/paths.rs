//! Unix path components, modelled on strings: a leading `/` is the root,
//! empty pieces and interior `.` pieces are skipped, a leading `.` of a
//! relative path is the current directory, `..` is the parent directory and
//! every other piece is a normal component.
use vstd::prelude::*;

use crate::text::{
    join_with, lemma_split_on_nonempty, lemma_split_pieces_lack_sep, push_range, split_on,
    split_ranges,
};

verus! {

#[derive(Clone, Copy, PartialEq, Eq, Structural, Debug)]
pub enum CompKind {
    Root,
    Cur,
    Parent,
    Normal,
}

pub open spec fn dot() -> Seq<char> {
    seq!['.']
}

pub open spec fn dot_dot() -> Seq<char> {
    seq!['.', '.']
}

pub open spec fn is_rooted(s: Seq<char>) -> bool {
    s.len() > 0 && s[0] == '/'
}

/// The component that piece `i` of a path contributes, if any.
pub open spec fn piece_component(p: Seq<char>, i: int, rooted: bool) -> Option<
    (CompKind, Seq<char>),
> {
    if p.len() == 0 {
        None
    } else if p == dot() {
        if i == 0 && !rooted {
            Some((CompKind::Cur, p))
        } else {
            None
        }
    } else if p == dot_dot() {
        Some((CompKind::Parent, p))
    } else {
        Some((CompKind::Normal, p))
    }
}

pub open spec fn components_upto(pieces: Seq<Seq<char>>, n: int, rooted: bool) -> Seq<
    (CompKind, Seq<char>),
>
    decreases n,
{
    if n <= 0 {
        if rooted {
            seq![(CompKind::Root, Seq::<char>::empty())]
        } else {
            Seq::empty()
        }
    } else {
        let before = components_upto(pieces, n - 1, rooted);
        match piece_component(pieces[n - 1], n - 1, rooted) {
            Some(c) => before.push(c),
            None => before,
        }
    }
}

/// The components of path `s`, each with its kind and text.
pub open spec fn components(s: Seq<char>) -> Seq<(CompKind, Seq<char>)> {
    let pieces = split_on(s, '/');
    components_upto(pieces, pieces.len() as int, is_rooted(s))
}

/// The texts of the normal components in `cs`.
pub open spec fn normal_texts(cs: Seq<(CompKind, Seq<char>)>) -> Seq<Seq<char>>
    decreases cs.len(),
{
    if cs.len() == 0 {
        Seq::empty()
    } else {
        let before = normal_texts(cs.drop_last());
        if cs.last().0 == CompKind::Normal {
            before.push(cs.last().1)
        } else {
            before
        }
    }
}

/// Every component in `cs` is a normal one.
pub open spec fn all_normal(cs: Seq<(CompKind, Seq<char>)>) -> bool {
    forall|i: int| 0 <= i < cs.len() ==> (#[trigger] cs[i]).0 == CompKind::Normal
}

/// Some component in `cs` is a parent directory.
pub open spec fn has_parent(cs: Seq<(CompKind, Seq<char>)>) -> bool {
    exists|i: int| 0 <= i < cs.len() && (#[trigger] cs[i]).0 == CompKind::Parent
}

pub proof fn lemma_normal_texts_all_normal(cs: Seq<(CompKind, Seq<char>)>)
    requires
        all_normal(cs),
    ensures
        normal_texts(cs).len() == cs.len(),
        forall|i: int| 0 <= i < cs.len() ==> normal_texts(cs)[i] == (#[trigger] cs[i]).1,
    decreases cs.len(),
{
    if cs.len() > 0 {
        assert(all_normal(cs.drop_last()));
        lemma_normal_texts_all_normal(cs.drop_last());
        assert(cs.last() == cs[cs.len() - 1]);
        assert forall|i: int| 0 <= i < cs.len() implies normal_texts(cs)[i] == (
        #[trigger] cs[i]).1 by {
            if i < cs.len() - 1 {
                assert(cs.drop_last()[i] == cs[i]);
            }
        }
    }
}

/// An executable component: its kind and its character range in the path.
pub struct Comp {
    pub kind: CompKind,
    pub start: usize,
    pub end: usize,
}

pub open spec fn comp_view(s: Seq<char>, c: Comp) -> (CompKind, Seq<char>) {
    (c.kind, s.subrange(c.start as int, c.end as int))
}

pub open spec fn comps_match(s: Seq<char>, r: Seq<Comp>, cs: Seq<(CompKind, Seq<char>)>) -> bool {
    &&& r.len() == cs.len()
    &&& forall|k: int|
        #![trigger r[k]]
        0 <= k < r.len() ==> {
            &&& r[k].start <= r[k].end <= s.len()
            &&& comp_view(s, r[k]) == cs[k]
        }
}

/// The components of path `s`.
pub fn components_of(s: &Vec<char>) -> (r: Vec<Comp>)
    ensures
        comps_match(s@, r@, components(s@)),
{
    let ranges = split_ranges(s, '/');
    let rooted = s.len() > 0 && s[0] == '/';
    let ghost pieces = split_on(s@, '/');
    let mut r: Vec<Comp> = Vec::new();
    if rooted {
        r.push(Comp { kind: CompKind::Root, start: 0, end: 0 });
        assert(s@.subrange(0, 0) =~= Seq::<char>::empty());
    }
    let mut i: usize = 0;
    while i < ranges.len()
        invariant
            ranges.len() == pieces.len(),
            pieces == split_on(s@, '/'),
            rooted == is_rooted(s@),
            forall|k: int|
                #![trigger ranges[k]]
                0 <= k < ranges.len() ==> {
                    &&& ranges[k].0 <= ranges[k].1 && ranges[k].1 <= s.len()
                    &&& s@.subrange(ranges[k].0 as int, ranges[k].1 as int) == pieces[k]
                },
            i <= ranges.len(),
            comps_match(s@, r@, components_upto(pieces, i as int, rooted)),
        decreases ranges.len() - i,
    {
        let (lo, hi) = ranges[i];
        let ghost piece = pieces[i as int];
        assert(s@.subrange(lo as int, hi as int) == piece);
        let ghost before = components_upto(pieces, i as int, rooted);
        let ghost after = components_upto(pieces, i + 1, rooted);
        let ghost old_r = r@;
        let kind: Option<CompKind> = if lo == hi {
            None
        } else if hi - lo == 1 && s[lo] == '.' {
            assert(piece =~= dot());
            if i == 0 && !rooted {
                Some(CompKind::Cur)
            } else {
                None
            }
        } else if hi - lo == 2 && s[lo] == '.' && s[lo + 1] == '.' {
            assert(piece =~= dot_dot());
            Some(CompKind::Parent)
        } else {
            assert(piece != dot()) by {
                if piece == dot() {
                    assert(piece[0] == s@[lo as int]);
                }
            }
            assert(piece != dot_dot()) by {
                if piece == dot_dot() {
                    assert(piece[0] == s@[lo as int]);
                    assert(piece[1] == s@[lo + 1]);
                }
            }
            Some(CompKind::Normal)
        };
        match kind {
            Some(k) => {
                r.push(Comp { kind: k, start: lo, end: hi });
                assert(after == before.push((k, piece)));
                assert forall|j: int| #![trigger r[j]] 0 <= j < r.len() implies {
                    &&& r[j].start <= r[j].end <= s.len()
                    &&& comp_view(s@, r[j]) == after[j]
                } by {
                    if j < old_r.len() {
                        assert(r[j] == old_r[j]);
                    }
                }
            },
            None => {
                assert(after == before);
            },
        }
        i = i + 1;
    }
    r
}

/// Appends the texts of the normal components among `r[from..]` of `src`,
/// separated by `/`, to `out`.
pub fn push_normal_texts(out: &mut String, src: &str, r: &Vec<Comp>, from: usize)
    requires
        from <= r.len(),
        forall|k: int| #![trigger r[k]] 0 <= k < r.len() ==> r[k].start <= r[k].end <= src@.len(),
    ensures
        final(out)@ == old(out)@ + join_with(
            normal_texts(r@.skip(from as int).map_values(|c: Comp| comp_view(src@, c))),
            '/',
        ),
{
    let ghost cs = r@.skip(from as int).map_values(|c: Comp| comp_view(src@, c));
    let ghost base = out@;
    let mut pushed = false;
    let mut i: usize = from;
    assert(cs.take(0) =~= Seq::<(CompKind, Seq<char>)>::empty());
    while i < r.len()
        invariant
            from <= i <= r.len(),
            forall|k: int|
                #![trigger r[k]]
                0 <= k < r.len() ==> r[k].start <= r[k].end <= src@.len(),
            cs == r@.skip(from as int).map_values(|c: Comp| comp_view(src@, c)),
            cs.len() == r.len() - from,
            pushed == (normal_texts(cs.take(i - from)).len() > 0),
            out@ == base + join_with(normal_texts(cs.take(i - from)), '/'),
        decreases r.len() - i,
    {
        let ghost n = i - from;
        let ghost before = normal_texts(cs.take(n));
        assert(cs[n] == comp_view(src@, r[i as int]));
        assert(cs.take(n + 1).drop_last() =~= cs.take(n));
        assert(cs.take(n + 1).last() == cs[n]);
        let c = &r[i];
        if c.kind == CompKind::Normal {
            let ghost text = src@.subrange(c.start as int, c.end as int);
            assert(normal_texts(cs.take(n + 1)) == before.push(text));
            if pushed {
                out.append("/");
                proof {
                    reveal_strlit("/");
                }
                assert(before.push(text).drop_last() =~= before);
            } else {
                assert(before.len() == 0);
                assert(before.push(text) =~= seq![text]);
            }
            push_range(out, src, c.start, c.end);
            pushed = true;
        } else {
            assert(normal_texts(cs.take(n + 1)) == before);
        }
        i = i + 1;
    }
    assert(cs.take(i - from) =~= cs);
}

/// Components of a path: only index 0 can be the root (exactly when the path
/// is rooted) or the current directory (only when it is not).
pub proof fn lemma_components_shape(pieces: Seq<Seq<char>>, n: int, rooted: bool)
    ensures
        forall|k: int|
            #![trigger components_upto(pieces, n, rooted)[k]]
            0 <= k < components_upto(pieces, n, rooted).len() ==> {
                let c = components_upto(pieces, n, rooted)[k];
                &&& (c.0 == CompKind::Root <==> (rooted && k == 0))
                &&& (c.0 == CompKind::Cur ==> (!rooted && k == 0))
                &&& (c.0 == CompKind::Parent ==> c.1 == dot_dot())
            },
        rooted ==> components_upto(pieces, n, rooted).len() >= 1,
    decreases n,
{
    if n > 0 {
        lemma_components_shape(pieces, n - 1, rooted);
        let before = components_upto(pieces, n - 1, rooted);
        match piece_component(pieces[n - 1], n - 1, rooted) {
            Some(c) => {
                if c.0 == CompKind::Cur {
                    assert(n - 1 == 0);
                    assert(before.len() == 0);
                }
                assert forall|k: int|
                    #![trigger components_upto(pieces, n, rooted)[k]]
                    0 <= k < components_upto(pieces, n, rooted).len() - 1 implies components_upto(
                    pieces,
                    n,
                    rooted,
                )[k] == before[k] by {}
            },
            None => {},
        }
    }
}

/// A text that can be a normal component: not empty, without `/`, and
/// neither `.` nor `..`.
pub open spec fn is_normal_name(t: Seq<char>) -> bool {
    t.len() > 0 && !t.contains('/') && t != dot() && t != dot_dot()
}

/// Each text as a normal component.
pub open spec fn as_normal(texts: Seq<Seq<char>>) -> Seq<(CompKind, Seq<char>)> {
    texts.map_values(|t: Seq<char>| (CompKind::Normal, t))
}

pub proof fn lemma_normal_texts_concat(a: Seq<(CompKind, Seq<char>)>, b: Seq<(CompKind, Seq<char>)>)
    ensures
        normal_texts(a + b) == normal_texts(a) + normal_texts(b),
    decreases b.len(),
{
    if b.len() == 0 {
        assert(a + b =~= a);
        assert(normal_texts(a) + normal_texts(b) =~= normal_texts(a));
    } else {
        lemma_normal_texts_concat(a, b.drop_last());
        assert((a + b).drop_last() =~= a + b.drop_last());
        assert((a + b).last() == b.last());
        if b.last().0 == CompKind::Normal {
            assert(normal_texts(a) + normal_texts(b) =~= (normal_texts(a) + normal_texts(
                b.drop_last(),
            )).push(b.last().1));
        }
    }
}

pub proof fn lemma_normal_texts_as_normal(texts: Seq<Seq<char>>)
    ensures
        normal_texts(as_normal(texts)) == texts,
        all_normal(as_normal(texts)),
        !has_parent(as_normal(texts)),
    decreases texts.len(),
{
    if texts.len() > 0 {
        lemma_normal_texts_as_normal(texts.drop_last());
        assert(as_normal(texts).drop_last() =~= as_normal(texts.drop_last()));
        assert(texts.drop_last().push(texts.last()) =~= texts);
    } else {
        assert(normal_texts(as_normal(texts)) =~= texts);
    }
}

/// Pieces that are all normal names, after an optional empty root piece,
/// give the root (if any) and then each piece as a normal component.
pub proof fn lemma_components_of_names(pieces: Seq<Seq<char>>, n: int, rooted: bool)
    requires
        0 <= n <= pieces.len(),
        rooted ==> n >= 1 && pieces[0].len() == 0,
        forall|i: int| (if rooted { 1int } else { 0int }) <= i < n ==> is_normal_name(#[trigger] pieces[i]),
    ensures
        rooted ==> components_upto(pieces, n, rooted) == seq![(CompKind::Root, Seq::<char>::empty())]
            + as_normal(pieces.subrange(1, n)),
        !rooted ==> components_upto(pieces, n, rooted) == as_normal(pieces.take(n)),
    decreases n,
{
    if n == 0 {
        assert(as_normal(pieces.take(0)) =~= Seq::<(CompKind, Seq<char>)>::empty());
    } else if rooted && n == 1 {
        assert(components_upto(pieces, 0, rooted) == seq![(CompKind::Root, Seq::<char>::empty())]);
        assert(as_normal(pieces.subrange(1, 1)) =~= Seq::<(CompKind, Seq<char>)>::empty());
        assert(seq![(CompKind::Root, Seq::<char>::empty())] + as_normal(pieces.subrange(1, 1))
            =~= seq![(CompKind::Root, Seq::<char>::empty())]);
    } else {
        lemma_components_of_names(pieces, n - 1, rooted);
        let p = pieces[n - 1];
        assert(is_normal_name(p));
        assert(piece_component(p, n - 1, rooted) == Some((CompKind::Normal, p)));
        if rooted {
            assert(as_normal(pieces.subrange(1, n)) =~= as_normal(pieces.subrange(1, n - 1)).push(
                (CompKind::Normal, p),
            ));
            assert(seq![(CompKind::Root, Seq::<char>::empty())] + as_normal(pieces.subrange(1, n))
                =~= (seq![(CompKind::Root, Seq::<char>::empty())] + as_normal(
                pieces.subrange(1, n - 1),
            )).push((CompKind::Normal, p)));
        } else {
            assert(as_normal(pieces.take(n)) =~= as_normal(pieces.take(n - 1)).push(
                (CompKind::Normal, p),
            ));
        }
    }
}

/// The text of every normal component of a path is a normal name.
pub proof fn lemma_normal_components_are_names(s: Seq<char>)
    ensures
        forall|k: int|
            0 <= k < components(s).len() && (#[trigger] components(s)[k]).0 == CompKind::Normal
                ==> is_normal_name(components(s)[k].1),
{
    let pieces = split_on(s, '/');
    lemma_split_pieces_lack_sep(s, '/');
    lemma_normal_components_upto(pieces, pieces.len() as int, is_rooted(s));
}

proof fn lemma_normal_components_upto(pieces: Seq<Seq<char>>, n: int, rooted: bool)
    requires
        n <= pieces.len(),
        forall|i: int| 0 <= i < pieces.len() ==> !(#[trigger] pieces[i]).contains('/'),
    ensures
        forall|k: int|
            0 <= k < components_upto(pieces, n, rooted).len() && (#[trigger] components_upto(
                pieces,
                n,
                rooted,
            )[k]).0 == CompKind::Normal ==> is_normal_name(components_upto(pieces, n, rooted)[k].1),
    decreases n,
{
    if n > 0 {
        lemma_normal_components_upto(pieces, n - 1, rooted);
        let before = components_upto(pieces, n - 1, rooted);
        let p = pieces[n - 1];
        match piece_component(p, n - 1, rooted) {
            Some(c) => {
                assert forall|k: int|
                    0 <= k < components_upto(pieces, n, rooted).len() && (#[trigger] components_upto(
                        pieces,
                        n,
                        rooted,
                    )[k]).0 == CompKind::Normal implies is_normal_name(
                    components_upto(pieces, n, rooted)[k].1,
                ) by {
                    if k < before.len() {
                        assert(components_upto(pieces, n, rooted)[k] == before[k]);
                    }
                }
            },
            None => {},
        }
    }
}

/// Normal names joined with `/` form a relative path whose components are
/// exactly those names.
pub proof fn lemma_join_of_names(names: Seq<Seq<char>>)
    requires
        names.len() > 0,
        forall|i: int| 0 <= i < names.len() ==> is_normal_name(#[trigger] names[i]),
    ensures
        split_on(join_with(names, '/'), '/') == names,
        !is_rooted(join_with(names, '/')),
        join_with(names, '/').len() > 0,
        components(join_with(names, '/')) == as_normal(names),
{
    let j = join_with(names, '/');
    crate::text::lemma_split_join(names, '/');
    crate::text::lemma_join_starts_with_first(names, '/');
    assert(names[0].len() > 0);
    assert(j[0] == names[0][0]);
    assert(names[0][0] != '/') by {
        assert(!names[0].contains('/'));
    }
    lemma_components_of_names(names, names.len() as int, false);
    assert(names.take(names.len() as int) =~= names);
}

/// `/` followed by normal names joined with `/` is a rooted path whose
/// components are the root and those names.
pub proof fn lemma_rooted_join_of_names(names: Seq<Seq<char>>)
    requires
        forall|i: int| 0 <= i < names.len() ==> is_normal_name(#[trigger] names[i]),
    ensures
        is_rooted(seq!['/'] + join_with(names, '/')),
        components(seq!['/'] + join_with(names, '/')) == seq![
            (CompKind::Root, Seq::<char>::empty()),
        ] + as_normal(names),
{
    let j = join_with(names, '/');
    let s = seq!['/'] + j;
    crate::text::lemma_split_concat(Seq::<char>::empty(), j, '/');
    assert(Seq::<char>::empty() + seq!['/'] + j =~= s);
    if names.len() == 0 {
        assert(j =~= Seq::<char>::empty());
        let pieces = split_on(s, '/');
        assert(pieces =~= seq![Seq::<char>::empty(), Seq::<char>::empty()]);
        assert(pieces[0].len() == 0 && pieces[1].len() == 0);
        assert(components_upto(pieces, 0, true) == seq![(CompKind::Root, Seq::<char>::empty())]);
        assert(components_upto(pieces, 1, true) == components_upto(pieces, 0, true));
        assert(components_upto(pieces, 2, true) == components_upto(pieces, 1, true));
        assert(as_normal(names) =~= Seq::<(CompKind, Seq<char>)>::empty());
        assert(seq![(CompKind::Root, Seq::<char>::empty())] + as_normal(names) =~= seq![
            (CompKind::Root, Seq::<char>::empty()),
        ]);
    } else {
        crate::text::lemma_split_join(names, '/');
        let pieces = split_on(s, '/');
        assert(pieces =~= seq![Seq::<char>::empty()] + names);
        assert forall|i: int| 1 <= i < pieces.len() implies is_normal_name(#[trigger] pieces[i]) by {
            assert(pieces[i] == names[i - 1]);
        }
        lemma_components_of_names(pieces, pieces.len() as int, true);
        assert(pieces.subrange(1, pieces.len() as int) =~= names);
    }
}

/// Every text that `normal_texts` picks is the text of a normal component.
pub open spec fn picked_from(cs: Seq<(CompKind, Seq<char>)>, t: Seq<char>) -> bool {
    exists|j: int| 0 <= j < cs.len() && (#[trigger] cs[j]).0 == CompKind::Normal && t == cs[j].1
}

pub proof fn lemma_normal_texts_origin(cs: Seq<(CompKind, Seq<char>)>)
    ensures
        forall|k: int|
            0 <= k < normal_texts(cs).len() ==> picked_from(cs, #[trigger] normal_texts(cs)[k]),
    decreases cs.len(),
{
    if cs.len() > 0 {
        lemma_normal_texts_origin(cs.drop_last());
        let before = normal_texts(cs.drop_last());
        assert forall|k: int| 0 <= k < normal_texts(cs).len() implies picked_from(
            cs,
            #[trigger] normal_texts(cs)[k],
        ) by {
            if k < before.len() {
                assert(normal_texts(cs)[k] == before[k]);
                assert(picked_from(cs.drop_last(), before[k]));
                let j = choose|j: int|
                    0 <= j < cs.drop_last().len() && (#[trigger] cs.drop_last()[j]).0
                        == CompKind::Normal && before[k] == cs.drop_last()[j].1;
                assert(cs[j] == cs.drop_last()[j]);
            } else {
                assert(cs[cs.len() - 1] == cs.last());
            }
        }
    }
}

/// The normal texts of a path are normal names.
pub proof fn lemma_normal_texts_are_names(s: Seq<char>)
    ensures
        forall|k: int|
            0 <= k < normal_texts(components(s)).len() ==> is_normal_name(
                #[trigger] normal_texts(components(s))[k],
            ),
{
    lemma_normal_texts_origin(components(s));
    lemma_normal_components_are_names(s);
    assert forall|k: int| 0 <= k < normal_texts(components(s)).len() implies is_normal_name(
        #[trigger] normal_texts(components(s))[k],
    ) by {
        assert(picked_from(components(s), normal_texts(components(s))[k]));
        let j = choose|j: int|
            0 <= j < components(s).len() && (#[trigger] components(s)[j]).0 == CompKind::Normal
                && normal_texts(components(s))[k] == components(s)[j].1;
        assert(components(s)[j].0 == CompKind::Normal);
    }
}

} // verus!
