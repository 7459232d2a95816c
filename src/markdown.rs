//! Local image references in a markdown document: `![alt](target)` links,
//! found line by line, where the alt text holds no `]` and the target no `)`
//! (no nesting). Targets with a web or embedded-data scheme are skipped.
use vstd::prelude::*;
use crate::paths::{join_path, joined_path};
use crate::text::{chars_of, has_prefix, matches_at, string_from};

verus! {

/// One local image reference found in a document.
pub struct ImagePlaceholder {
    /// Alt text from `![alt](path)`.
    pub alt_text: String,
    /// The target as written, relative to the document.
    pub relative_path: String,
    /// The target resolved against the document's directory.
    pub absolute_path: String,
    /// Line of the reference in the document, counted from 1.
    pub line_number: usize,
    /// Whether the target file existed when the document was read.
    pub exists: bool,
}

/// A reference as the grammar sees it: alt text, target and line number.
pub type LinkView = (Seq<char>, Seq<char>, int);

/// The first position at or after `from` that holds `c` or ends the line;
/// the text's length if there is none.
pub open spec fn stop_at(t: Seq<char>, from: int, c: char) -> int
    decreases t.len() - from,
{
    if from >= t.len() {
        t.len() as int
    } else if t[from] == c || t[from] == '\n' {
        from
    } else {
        stop_at(t, from + 1, c)
    }
}

/// Where a link starts at `i`: the positions of its `]` and of its closing `)`.
pub open spec fn link_at(t: Seq<char>, i: int) -> Option<(int, int)> {
    if 0 <= i && i + 1 < t.len() && t[i] == '!' && t[i + 1] == '[' {
        let j = stop_at(t, i + 2, ']');
        if i + 2 <= j && j + 1 < t.len() && t[j] == ']' && t[j + 1] == '(' {
            let k = stop_at(t, j + 2, ')');
            if j + 2 < k && k < t.len() && t[k] == ')' {
                Some((j, k))
            } else {
                None
            }
        } else {
            None
        }
    } else {
        None
    }
}

/// Whether a target names a remote or embedded resource.
pub open spec fn is_remote(target: Seq<char>) -> bool {
    has_prefix(target, "http://"@) || has_prefix(target, "https://"@) || has_prefix(target, "data:"@)
}

/// The local references from position `i` on, where `i` lies on line `line`.
/// After a link, the search resumes right after its closing parenthesis.
pub open spec fn links_from(t: Seq<char>, i: int, line: int) -> Seq<LinkView>
    decreases t.len() - i,
{
    if i < 0 || i >= t.len() {
        Seq::empty()
    } else if t[i] == '\n' {
        links_from(t, i + 1, line + 1)
    } else {
        match link_at(t, i) {
            Some((j, k)) => {
                let target = t.subrange(j + 2, k);
                if is_remote(target) {
                    links_from(t, k + 1, line)
                } else {
                    seq![(t.subrange(i + 2, j), target, line)] + links_from(t, k + 1, line)
                }
            },
            None => links_from(t, i + 1, line),
        }
    }
}

/// All local image references of a document, in order.
pub open spec fn links(t: Seq<char>) -> Seq<LinkView> {
    links_from(t, 0, 1)
}

fn stop_index(t: &Vec<char>, from: usize, c: char) -> (r: usize)
    requires
        from <= t@.len(),
    ensures
        r == stop_at(t@, from as int, c),
        from <= r <= t@.len(),
{
    let mut k: usize = from;
    while k < t.len() && t[k] != c && t[k] != '\n'
        invariant
            from <= k <= t@.len(),
            stop_at(t@, k as int, c) == stop_at(t@, from as int, c),
        decreases t@.len() - k,
    {
        k = k + 1;
    }
    k
}

fn find_link(t: &Vec<char>, i: usize) -> (r: Option<(usize, usize)>)
    requires
        i < t@.len(),
    ensures
        match r {
            Some((j, k)) => link_at(t@, i as int) == Some((j as int, k as int)),
            None => link_at(t@, i as int) is None,
        },
{
    let n: usize = t.len();
    if i + 1 < n && t[i] == '!' && t[i + 1] == '[' {
        let j = stop_index(t, i + 2, ']');
        if i + 2 <= j && n - j > 1 && t[j] == ']' && t[j + 1] == '(' {
            let k = stop_index(t, j + 2, ')');
            if j + 2 < k && k < n && t[k] == ')' {
                return Some((j, k));
            }
        }
    }
    None
}

/// Whether a placeholder is the reference `link` of a document in `dir`.
pub open spec fn describes(p: ImagePlaceholder, link: LinkView, dir: Seq<char>) -> bool {
    &&& p.alt_text@ == link.0
    &&& p.relative_path@ == link.1
    &&& p.absolute_path@ == joined_path(dir, link.1)
    &&& p.line_number as int == link.2
}

/// Extracts the local image references of a document's text, in order, with
/// 1-based line numbers. `markdown_dir` is the document's directory, against
/// which targets are resolved; `is_present` reports whether a resolved path is
/// present on disk, and is asked once per reference.
pub fn parse_markdown<F: Fn(&String) -> bool>(content: &str, markdown_dir: &str, is_present: F) -> (r: Vec<ImagePlaceholder>)
    requires
        content@.len() < usize::MAX,
        forall|p: &String| is_present.requires((p,)),
    ensures
        r@.len() == links(content@).len(),
        forall|n: int| 0 <= n < r@.len() ==> describes(#[trigger] r@[n], links(content@)[n], markdown_dir@),
        forall|n: int| 0 <= n < r@.len() ==> is_present.ensures((&(#[trigger] r@[n]).absolute_path,), r@[n].exists),
{
    let t = chars_of(content);
    let mut out: Vec<ImagePlaceholder> = Vec::new();
    let mut i: usize = 0;
    let mut line: usize = 1;
    let ghost found: Seq<LinkView> = Seq::empty();
    while i < t.len()
        invariant
            t@ == content@,
            t@.len() < usize::MAX,
            i <= t@.len(),
            1 <= line <= i + 1,
            links(t@) == found + links_from(t@, i as int, line as int),
            out@.len() == found.len(),
            forall|n: int| 0 <= n < out@.len() ==> describes(#[trigger] out@[n], found[n], markdown_dir@),
            forall|n: int| 0 <= n < out@.len() ==> is_present.ensures((&(#[trigger] out@[n]).absolute_path,), out@[n].exists),
            forall|p: &String| is_present.requires((p,)),
        decreases t@.len() - i,
    {
        if t[i] == '\n' {
            i = i + 1;
            line = line + 1;
        } else {
            match find_link(&t, i) {
                Some((j, k)) => {
                    let target = string_from(&t, j + 2, k);
                    let tv = chars_of(target.as_str());
                    let remote = matches_at(&tv, 0, "http://") || matches_at(&tv, 0, "https://")
                        || matches_at(&tv, 0, "data:");
                    assert(tv@.subrange(0, tv@.len() as int) =~= target@);
                    if !remote {
                        let alt = string_from(&t, i + 2, j);
                        let absolute = join_path(markdown_dir, target.as_str());
                        let present = is_present(&absolute);
                        let p = ImagePlaceholder {
                            alt_text: alt,
                            relative_path: target,
                            absolute_path: absolute,
                            line_number: line,
                            exists: present,
                        };
                        proof {
                            found = found.push((t@.subrange(i + 2, j as int), t@.subrange(j + 2, k as int), line as int));
                        }
                        out.push(p);
                    }
                    i = k + 1;
                },
                None => {
                    i = i + 1;
                },
            }
        }
    }
    out
}


/// Selects the placeholders that still wait for their image.
pub open spec fn unfilled() -> spec_fn(ImagePlaceholder) -> bool {
    |p: ImagePlaceholder| !p.exists
}

/// The placeholders whose target did not exist, in document order.
pub fn get_unfilled_placeholders(all: Vec<ImagePlaceholder>) -> (r: Vec<ImagePlaceholder>)
    ensures
        r@ == all@.filter(unfilled()),
{
    let mut rest = all;
    let mut out: Vec<ImagePlaceholder> = Vec::new();
    while rest.len() > 0
        invariant
            out@ + rest@.filter(unfilled()) == all@.filter(unfilled()),
        decreases rest@.len(),
    {
        let ghost before = rest@;
        let p = rest.remove(0);
        proof {
            assert(before =~= seq![p] + rest@);
            Seq::filter_distributes_over_add(seq![p], rest@, unfilled());
            reveal_with_fuel(Seq::filter, 2);
            assert(seq![p].drop_last() =~= Seq::<ImagePlaceholder>::empty());
            assert(Seq::<ImagePlaceholder>::empty().filter(unfilled()) =~= Seq::<ImagePlaceholder>::empty());
            assert(seq![p].last() == p);
            assert(unfilled()(p) == !p.exists);
            assert(seq![p].len() == 1);
            if !p.exists {
                assert(seq![p].filter(unfilled()) =~= seq![p]);
            } else {
                assert(seq![p].filter(unfilled()) =~= Seq::<ImagePlaceholder>::empty());
            }
        }
        if !p.exists {
            out.push(p);
        }
        assert(out@ + rest@.filter(unfilled()) =~= all@.filter(unfilled()));
    }
    out
}


/// The 1-based line of position `pos`: one more than the line breaks before it.
pub open spec fn line_of(t: Seq<char>, pos: int) -> int
    decreases pos,
{
    if pos <= 0 {
        1
    } else {
        line_of(t, pos - 1) + if t[pos - 1] == '\n' { 1int } else { 0int }
    }
}

/// Whether `link` is the reference that starts at position `pos` of `t`.
pub open spec fn link_found_at(t: Seq<char>, pos: int, link: LinkView) -> bool {
    match link_at(t, pos) {
        Some((j, k)) => {
            &&& link.0 == t.subrange(pos + 2, j)
            &&& link.1 == t.subrange(j + 2, k)
            &&& link.2 == line_of(t, pos)
            &&& !is_remote(link.1)
        },
        None => false,
    }
}

/// Whether `link` starts at some position of `t` from `lo` on.
pub open spec fn found_from(t: Seq<char>, lo: int, link: LinkView) -> bool {
    exists|pos: int| lo <= pos < t.len() && #[trigger] link_found_at(t, pos, link)
}

proof fn lemma_stop_at_same_line(t: Seq<char>, from: int, c: char, m: int)
    requires
        0 <= from <= m < stop_at(t, from, c),
    ensures
        t[m] != '\n',
    decreases m - from,
{
    if m > from {
        lemma_stop_at_same_line(t, from + 1, c, m);
    }
}

proof fn lemma_stop_at_bounds(t: Seq<char>, from: int, c: char)
    requires
        0 <= from,
    ensures
        from <= stop_at(t, from, c) || from > t.len(),
        stop_at(t, from, c) <= t.len() || from > t.len(),
    decreases t.len() - from,
{
    if from < t.len() && t[from] != c && t[from] != '\n' {
        lemma_stop_at_bounds(t, from + 1, c);
    }
}

proof fn lemma_line_steady(t: Seq<char>, a: int, b: int)
    requires
        0 <= a <= b <= t.len(),
        forall|m: int| a <= m < b ==> t[m] != '\n',
    ensures
        line_of(t, b) == line_of(t, a),
    decreases b - a,
{
    if b > a {
        lemma_line_steady(t, a, b - 1);
    }
}

proof fn lemma_links_from_found(t: Seq<char>, i: int, line: int)
    requires
        0 <= i <= t.len(),
        line == line_of(t, i),
    ensures
        forall|n: int| #![trigger links_from(t, i, line)[n]] 0 <= n < links_from(t, i, line).len() ==>
            found_from(t, i, links_from(t, i, line)[n]),
    decreases t.len() - i,
{
    if i < t.len() {
        if t[i] == '\n' {
            assert(line_of(t, i + 1) == line + 1);
            lemma_links_from_found(t, i + 1, line + 1);
            let r = links_from(t, i + 1, line + 1);
            assert(links_from(t, i, line) == r);
            assert forall|n: int| #![trigger links_from(t, i, line)[n]] 0 <= n < links_from(t, i, line).len() implies
                found_from(t, i, links_from(t, i, line)[n]) by {
                assert(links_from(t, i, line)[n] == r[n]);
                assert(found_from(t, i + 1, r[n]));
                let pos = choose|pos: int| i + 1 <= pos < t.len() && #[trigger] link_found_at(t, pos, r[n]);
                assert(i <= pos < t.len() && link_found_at(t, pos, links_from(t, i, line)[n]));
            }
        } else {
            if link_at(t, i) is Some {
                let j = link_at(t, i)->Some_0.0;
                let k = link_at(t, i)->Some_0.1;
                lemma_stop_at_bounds(t, i + 2, ']');
                lemma_stop_at_bounds(t, j + 2, ')');
                assert forall|m: int| i <= m < k + 1 implies t[m] != '\n' by {
                    if i + 2 <= m < j {
                        lemma_stop_at_same_line(t, i + 2, ']', m);
                    } else if j + 2 <= m < k {
                        lemma_stop_at_same_line(t, j + 2, ')', m);
                    }
                }
                lemma_line_steady(t, i, k + 1);
                lemma_links_from_found(t, k + 1, line);
                let rest = links_from(t, k + 1, line);
                let target = t.subrange(j + 2, k);
                if is_remote(target) {
                    assert(links_from(t, i, line) == rest);
                } else {
                    assert(links_from(t, i, line) == seq![(t.subrange(i + 2, j), target, line)] + rest);
                }
                assert forall|n: int| #![trigger links_from(t, i, line)[n]] 0 <= n < links_from(t, i, line).len() implies
                    found_from(t, i, links_from(t, i, line)[n]) by {
                    if !is_remote(target) && n == 0 {
                        assert(link_found_at(t, i, links_from(t, i, line)[0]));
                    } else {
                        let m = if is_remote(target) { n } else { n - 1 };
                        assert(links_from(t, i, line)[n] == rest[m]);
                        assert(found_from(t, k + 1, rest[m]));
                        let pos = choose|pos: int| k + 1 <= pos < t.len() && #[trigger] link_found_at(t, pos, rest[m]);
                        assert(i <= pos < t.len() && link_found_at(t, pos, links_from(t, i, line)[n]));
                    }
                }
            } else {
                assert(line_of(t, i + 1) == line);
                lemma_links_from_found(t, i + 1, line);
                let r = links_from(t, i + 1, line);
                assert(links_from(t, i, line) == r);
                assert forall|n: int| #![trigger links_from(t, i, line)[n]] 0 <= n < links_from(t, i, line).len() implies
                    found_from(t, i, links_from(t, i, line)[n]) by {
                    assert(links_from(t, i, line)[n] == r[n]);
                    assert(found_from(t, i + 1, r[n]));
                    let pos = choose|pos: int| i + 1 <= pos < t.len() && #[trigger] link_found_at(t, pos, r[n]);
                    assert(i <= pos < t.len() && link_found_at(t, pos, links_from(t, i, line)[n]));
                }
            }
        }
    } else {
        assert(links_from(t, i, line) =~= Seq::<LinkView>::empty());
    }
}

/// Every reference reported for a document is a link written in it, with a
/// local (non-remote) target, and carries the 1-based number of the line on
/// which it starts.
pub proof fn lemma_links_are_local_and_on_their_line(t: Seq<char>)
    ensures
        forall|n: int| #![trigger links(t)[n]] 0 <= n < links(t).len() ==>
            found_from(t, 0, links(t)[n]),
{
    assert(line_of(t, 0) == 1);
    lemma_links_from_found(t, 0, 1);
}

proof fn lemma_links_from_lines(t: Seq<char>, i: int, line: int)
    ensures
        forall|n: int| 0 <= n < links_from(t, i, line).len() ==> line <= #[trigger] links_from(t, i, line)[n].2,
        forall|a: int, b: int| 0 <= a < b < links_from(t, i, line).len() ==>
            (#[trigger] links_from(t, i, line)[a]).2 <= (#[trigger] links_from(t, i, line)[b]).2,
    decreases t.len() - i,
{
    if 0 <= i < t.len() {
        if t[i] == '\n' {
            lemma_links_from_lines(t, i + 1, line + 1);
            assert(links_from(t, i, line) == links_from(t, i + 1, line + 1));
        } else if link_at(t, i) is Some {
            let j = link_at(t, i)->Some_0.0;
            let k = link_at(t, i)->Some_0.1;
            lemma_links_from_lines(t, k + 1, line);
            let rest = links_from(t, k + 1, line);
            let target = t.subrange(j + 2, k);
            if is_remote(target) {
                assert(links_from(t, i, line) == rest);
            } else {
                let all = seq![(t.subrange(i + 2, j), target, line)] + rest;
                assert(links_from(t, i, line) == all);
                assert forall|n: int| 0 <= n < all.len() implies line <= #[trigger] all[n].2 by {
                    if n > 0 {
                        assert(all[n] == rest[n - 1]);
                    }
                }
                assert forall|a: int, b: int| 0 <= a < b < all.len() implies
                    (#[trigger] all[a]).2 <= (#[trigger] all[b]).2 by {
                    assert(all[b] == rest[b - 1]);
                    if a > 0 {
                        assert(all[a] == rest[a - 1]);
                    }
                }
            }
        } else {
            lemma_links_from_lines(t, i + 1, line);
            assert(links_from(t, i, line) == links_from(t, i + 1, line));
        }
    }
}

/// Line numbers of the reported references start at 1 and never decrease:
/// references come in the order in which they stand in the document.
pub proof fn lemma_link_lines_ordered(t: Seq<char>)
    ensures
        forall|n: int| 0 <= n < links(t).len() ==> 1 <= #[trigger] links(t)[n].2,
        forall|a: int, b: int| 0 <= a < b < links(t).len() ==>
            (#[trigger] links(t)[a]).2 <= (#[trigger] links(t)[b]).2,
{
    lemma_links_from_lines(t, 0, 1);
}

proof fn lemma_filter_positions(all: Seq<ImagePlaceholder>) -> (idx: Seq<int>)
    ensures
        idx.len() == all.filter(unfilled()).len(),
        forall|k: int| 0 <= k < idx.len() ==> 0 <= #[trigger] idx[k] < all.len()
            && all.filter(unfilled())[k] == all[idx[k]],
        forall|k: int, l: int| 0 <= k < l < idx.len() ==> #[trigger] idx[k] < #[trigger] idx[l],
    decreases all.len(),
{
    reveal_with_fuel(Seq::filter, 1);
    if all.len() == 0 {
        Seq::empty()
    } else {
        let front = all.drop_last();
        let prev = lemma_filter_positions(front);
        let f = all.filter(unfilled());
        if unfilled()(all.last()) {
            let idx = prev.push(all.len() - 1);
            assert(f == front.filter(unfilled()).push(all.last()));
            assert forall|k: int| 0 <= k < idx.len() implies 0 <= #[trigger] idx[k] < all.len()
                && f[k] == all[idx[k]] by {
                if k < prev.len() {
                    assert(idx[k] == prev[k]);
                    assert(front[prev[k]] == all[prev[k]]);
                }
            }
            assert forall|k: int, l: int| 0 <= k < l < idx.len() implies #[trigger] idx[k] < #[trigger] idx[l] by {
                if l < prev.len() {
                    assert(idx[k] == prev[k] && idx[l] == prev[l]);
                } else {
                    assert(idx[k] == prev[k]);
                }
            }
            idx
        } else {
            assert(f == front.filter(unfilled()));
            assert forall|k: int| 0 <= k < prev.len() implies 0 <= #[trigger] prev[k] < all.len()
                && f[k] == all[prev[k]] by {
                assert(front[prev[k]] == all[prev[k]]);
            }
            prev
        }
    }
}

/// `idx` lists, in increasing order, the positions in `all` of the
/// unfilled placeholders.
pub open spec fn unfilled_positions(all: Seq<ImagePlaceholder>, idx: Seq<int>) -> bool {
    &&& idx.len() == all.filter(unfilled()).len()
    &&& forall|k: int| 0 <= k < idx.len() ==> 0 <= #[trigger] idx[k] < all.len()
        && all.filter(unfilled())[k] == all[idx[k]]
    &&& forall|k: int, l: int| 0 <= k < l < idx.len() ==> #[trigger] idx[k] < #[trigger] idx[l]
}

/// The unfilled placeholders form a subsequence of the full list: they sit
/// at strictly increasing positions of it.
pub proof fn lemma_unfilled_in_order(all: Seq<ImagePlaceholder>)
    ensures
        exists|idx: Seq<int>| #[trigger] unfilled_positions(all, idx),
{
    let idx = lemma_filter_positions(all);
    assert(unfilled_positions(all, idx));
}

/// The unfilled placeholders are exactly those of the full list whose
/// target did not exist, in the same relative order: each of them occurs in
/// the full list and is unfilled, and every unfilled one of the full list
/// occurs among them.
pub proof fn lemma_unfilled_subsequence(all: Seq<ImagePlaceholder>)
    ensures
        all.filter(unfilled()).len() <= all.len(),
        forall|n: int| 0 <= n < all.filter(unfilled()).len() ==> {
            &&& !(#[trigger] all.filter(unfilled())[n]).exists
            &&& all.contains(all.filter(unfilled())[n])
        },
        forall|n: int| 0 <= n < all.len() && !(#[trigger] all[n]).exists ==> all.filter(unfilled()).contains(all[n]),
{
    broadcast use vstd::seq_lib::group_filter_ensures;
    let f = all.filter(unfilled());
    assert forall|n: int| 0 <= n < f.len() implies !(#[trigger] f[n]).exists && all.contains(f[n]) by {
        all.lemma_filter_pred(unfilled(), n);
        all.lemma_filter_contains_rev(unfilled(), f[n]);
        assert(f.contains(f[n]));
    }
    assert forall|n: int| 0 <= n < all.len() && !(#[trigger] all[n]).exists implies f.contains(all[n]) by {
        assert(unfilled()(all[n]));
        all.lemma_filter_contains(unfilled(), n);
    }
}

} // verus!
