//! Image reclamation: which images on a node may be removed, and in what
//! order. The rules only ever *protect* an image; the Docker calls that act on
//! the answer live with the caller.

use vstd::prelude::*;

use crate::text::{chars_lt, chars_of, lemma_seq_lt_total, lemma_seq_lt_transitive, seq_lt};

verus! {

/// What one reclamation pass recovered.
#[derive(Debug, Default, PartialEq, Eq, Clone, Copy)]
pub struct Reclaimed {
    pub images: usize,
    pub bytes: i64,
}

impl Reclaimed {
    /// Count one removed image of `size` bytes.
    pub fn removed(&mut self, size: i64)
        requires
            old(self).images < usize::MAX,
            i64::MIN <= old(self).bytes + size <= i64::MAX,
        ensures
            final(self).images == old(self).images + 1,
            final(self).bytes == old(self).bytes + size,
    {
        self.images = self.images + 1;
        self.bytes = self.bytes + size;
    }
}

/// The ids a teardown releases, in the order given: each non-empty id once,
/// where it first occurs.
pub open spec fn first_seen(ids: Seq<Seq<char>>) -> Seq<Seq<char>>
    decreases ids.len(),
{
    if ids.len() == 0 {
        Seq::empty()
    } else {
        let r = first_seen(ids.drop_last());
        let x = ids.last();
        if x.len() == 0 || r.contains(x) {
            r
        } else {
            r.push(x)
        }
    }
}

/// A teardown releases each image at most once, never an empty id, and only
/// ids it was given.
pub proof fn law_each_image_is_released_once(ids: Seq<Seq<char>>)
    ensures
        forall|i: int, j: int| 0 <= i < j < first_seen(ids).len() ==> #[trigger] first_seen(ids)[i] != #[trigger] first_seen(ids)[j],
        forall|i: int| 0 <= i < first_seen(ids).len() ==> (#[trigger] first_seen(ids)[i]).len() > 0 && ids.contains(first_seen(ids)[i]),
    decreases ids.len(),
{
    if ids.len() > 0 {
        let rest = ids.drop_last();
        law_each_image_is_released_once(rest);
        let r = first_seen(rest);
        assert forall|i: int| 0 <= i < r.len() implies ids.contains(#[trigger] r[i]) by {
            let k = choose|k: int| 0 <= k < rest.len() && rest[k] == r[i];
            assert(ids[k] == r[i]);
        }
        let x = ids.last();
        if !(x.len() == 0 || r.contains(x)) {
            assert(ids[ids.len() - 1] == x);
            assert forall|i: int| 0 <= i < r.len() implies #[trigger] r.push(x)[i] != x by {
                if r[i] == x {
                    assert(r.contains(x));
                }
            }
        }
    }
}

fn seen_before(out: &Vec<String>, id: &String) -> (b: bool)
    ensures
        b == out@.map_values(|s: String| s@).contains(id@),
{
    let ghost v = out@.map_values(|s: String| s@);
    let mut k: usize = 0;
    while k < out.len()
        invariant
            k <= out.len(),
            v == out@.map_values(|s: String| s@),
            forall|j: int| 0 <= j < k ==> v[j] != id@,
        decreases out.len() - k,
    {
        if crate::text::str_eq(out[k].as_str(), id.as_str()) {
            assert(v[k as int] == id@);
            return true;
        }
        k = k + 1;
    }
    proof {
        if v.contains(id@) {
            let j = choose|j: int| 0 <= j < v.len() && v[j] == id@;
            assert(v[j] != id@);
        }
    }
    false
}

/// The images to release for a teardown: each non-empty id once, in the
/// order first given. Two previews built from one commit share a digest, so
/// the same id can come twice.
pub fn distinct_ids(ids: &[String]) -> (out: Vec<String>)
    ensures
        out@.map_values(|s: String| s@) == first_seen(ids@.map_values(|s: String| s@)),
{
    let ghost all = ids@.map_values(|s: String| s@);
    let mut out: Vec<String> = Vec::new();
    let mut i: usize = 0;
    assert(all.take(0) =~= Seq::<Seq<char>>::empty());
    while i < ids.len()
        invariant
            i <= ids.len(),
            all == ids@.map_values(|s: String| s@),
            out@.map_values(|s: String| s@) == first_seen(all.take(i as int)),
        decreases ids.len() - i,
    {
        let id = &ids[i];
        assert(all.take(i + 1).drop_last() =~= all.take(i as int));
        assert(all.take(i + 1).last() == id@);
        let seen = seen_before(&out, id);
        if id.as_str().unicode_len() != 0 && !seen {
            let ghost before = out@.map_values(|s: String| s@);
            out.push(id.clone());
            assert(out@.map_values(|s: String| s@) =~= before.push(id@));
        }
        i = i + 1;
    }
    assert(all.take(ids.len() as int) =~= all);
    out
}

/// Every image the platform itself runs, which reclamation must leave alone:
/// the platform's own images, the ingress images, the secrets helper and the
/// terminal helper, as a set in ascending order.
pub fn protected_images(platform: &[String], ingress: &[String], helper: &str, term_helper: &str) -> (r: Vec<String>)
    ensures
        crate::strset::ascending(crate::run::strs(r@)),
        forall|y: Seq<char>| #[trigger] crate::run::strs(r@).contains(y) <==> (crate::run::strs(platform@).contains(y)
            || crate::run::strs(ingress@).contains(y) || y == helper@ || y == term_helper@),
{
    let mut set: Vec<String> = Vec::new();
    let mut i: usize = 0;
    assert(crate::run::strs(set@) =~= Seq::<Seq<char>>::empty());
    while i < platform.len()
        invariant
            i <= platform.len(),
            crate::strset::ascending(crate::run::strs(set@)),
            forall|y: Seq<char>| #[trigger] crate::run::strs(set@).contains(y) <==> crate::run::strs(platform@).take(i as int).contains(y),
        decreases platform.len() - i,
    {
        let ghost before = crate::run::strs(platform@).take(i as int);
        crate::strset::insert_sorted(&mut set, platform[i].clone());
        assert(crate::run::strs(platform@).take(i + 1) =~= before.push(platform@[i as int]@));
        assert forall|y: Seq<char>| #[trigger] crate::run::strs(platform@).take(i + 1).contains(y) <==> (before.contains(y) || y == platform@[i as int]@) by {
            let t = before.push(platform@[i as int]@);
            if t.contains(y) {
                let k = choose|k: int| 0 <= k < t.len() && t[k] == y;
                if k < before.len() {
                    assert(before[k] == y);
                }
            }
            if before.contains(y) {
                let k = choose|k: int| 0 <= k < before.len() && before[k] == y;
                assert(t[k] == y);
            }
            if y == platform@[i as int]@ {
                assert(t[before.len() as int] == y);
            }
        }
        i = i + 1;
    }
    assert(crate::run::strs(platform@).take(platform.len() as int) =~= crate::run::strs(platform@));
    let mut j: usize = 0;
    assert(crate::run::strs(ingress@).take(0) =~= Seq::<Seq<char>>::empty());
    while j < ingress.len()
        invariant
            j <= ingress.len(),
            crate::strset::ascending(crate::run::strs(set@)),
            forall|y: Seq<char>| #[trigger] crate::run::strs(set@).contains(y) <==> (crate::run::strs(platform@).contains(y)
                || crate::run::strs(ingress@).take(j as int).contains(y)),
        decreases ingress.len() - j,
    {
        let ghost before = crate::run::strs(ingress@).take(j as int);
        crate::strset::insert_sorted(&mut set, ingress[j].clone());
        assert(crate::run::strs(ingress@).take(j + 1) =~= before.push(ingress@[j as int]@));
        assert forall|y: Seq<char>| #[trigger] crate::run::strs(ingress@).take(j + 1).contains(y) <==> (before.contains(y) || y == ingress@[j as int]@) by {
            let t = before.push(ingress@[j as int]@);
            if t.contains(y) {
                let k = choose|k: int| 0 <= k < t.len() && t[k] == y;
                if k < before.len() {
                    assert(before[k] == y);
                }
            }
            if before.contains(y) {
                let k = choose|k: int| 0 <= k < before.len() && before[k] == y;
                assert(t[k] == y);
            }
            if y == ingress@[j as int]@ {
                assert(t[before.len() as int] == y);
            }
        }
        j = j + 1;
    }
    assert(crate::run::strs(ingress@).take(ingress.len() as int) =~= crate::run::strs(ingress@));
    crate::strset::insert_sorted(&mut set, helper.to_string());
    crate::strset::insert_sorted(&mut set, term_helper.to_string());
    set
}

/// The subset of an image summary the selection rules read.
#[derive(Debug, Clone)]
pub struct ImageFacts {
    pub id: String,
    pub repo_tags: Vec<String>,
    /// Image creation time, unix seconds.
    pub created: i64,
    pub size: i64,
}

/// `s` is the view of one of the strings in `list`.
pub open spec fn listed(list: Seq<String>, s: Seq<char>) -> bool {
    exists|k: int| 0 <= k < list.len() && #[trigger] list[k]@ == s
}

/// Some tag of `img` is in `protected`.
pub open spec fn has_protected_tag(img: ImageFacts, protected: Seq<String>) -> bool {
    exists|t: int| 0 <= t < img.repo_tags@.len() && listed(protected, #[trigger] img.repo_tags@[t]@)
}

/// An image may be reclaimed: no container (running or stopped) uses it, none
/// of its tags is protected, and it is at least `min_age_secs` old.
pub open spec fn may_reclaim(
    img: ImageFacts,
    in_use: Seq<String>,
    protected: Seq<String>,
    now: i64,
    min_age_secs: i64,
) -> bool {
    &&& !listed(in_use, img.id@)
    &&& !has_protected_tag(img, protected)
    &&& now - img.created >= min_age_secs
}

/// The images in `s` that `may_reclaim`, in the order given.
pub open spec fn reclaimable_spec(
    s: Seq<ImageFacts>,
    in_use: Seq<String>,
    protected: Seq<String>,
    now: i64,
    min_age_secs: i64,
) -> Seq<ImageFacts> {
    s.filter(|img: ImageFacts| may_reclaim(img, in_use, protected, now, min_age_secs))
}

/// The referents of a sequence of references.
pub open spec fn derefs(s: Seq<&ImageFacts>) -> Seq<ImageFacts> {
    s.map_values(|r: &ImageFacts| *r)
}

fn string_listed(list: &[String], s: &String) -> (found: bool)
    ensures
        found == listed(list@, s@),
{
    let mut k: usize = 0;
    while k < list.len()
        invariant
            k <= list.len(),
            forall|j: int| 0 <= j < k ==> list@[j]@ != s@,
        decreases list.len() - k,
    {
        if list[k] == *s {
            return true;
        }
        k = k + 1;
    }
    false
}

fn any_tag_listed(tags: &Vec<String>, protected: &[String]) -> (found: bool)
    ensures
        found == exists|t: int| 0 <= t < tags@.len() && listed(protected@, #[trigger] tags@[t]@),
{
    let mut t: usize = 0;
    while t < tags.len()
        invariant
            t <= tags.len(),
            forall|j: int| 0 <= j < t ==> !listed(protected@, #[trigger] tags@[j]@),
        decreases tags.len() - t,
    {
        if string_listed(protected, &tags[t]) {
            return true;
        }
        t = t + 1;
    }
    false
}

/// Which images may be reclaimed, given what is in use and what the platform
/// needs: exactly those that `may_reclaim`, in the order given.
pub fn reclaimable<'a>(
    images: &'a [ImageFacts],
    in_use: &[String],
    protected: &[String],
    now: i64,
    min_age_secs: i64,
) -> (out: Vec<&'a ImageFacts>)
    ensures
        derefs(out@) == reclaimable_spec(images@, in_use@, protected@, now, min_age_secs),
{
    let ghost pred = |img: ImageFacts| may_reclaim(img, in_use@, protected@, now, min_age_secs);
    let mut out: Vec<&'a ImageFacts> = Vec::new();
    let mut i: usize = 0;
    assert(images@.take(0) =~= Seq::<ImageFacts>::empty());
    assert(derefs(out@) =~= images@.take(0).filter(pred)) by {
        reveal(Seq::filter);
    }
    while i < images.len()
        invariant
            i <= images.len(),
            pred == (|img: ImageFacts| may_reclaim(img, in_use@, protected@, now, min_age_secs)),
            derefs(out@) == images@.take(i as int).filter(pred),
        decreases images.len() - i,
    {
        let img = &images[i];
        let keep = !string_listed(in_use, &img.id) && !any_tag_listed(&img.repo_tags, protected)
            && now as i128 - img.created as i128 >= min_age_secs as i128;
        assert(keep == pred(*img));
        let ghost before = out@;
        if keep {
            out.push(img);
            assert(derefs(out@) =~= derefs(before).push(*img));
        }
        proof {
            images@.take(i as int).lemma_filter_push(*img, pred);
            assert(images@.take(i as int).push(*img) =~= images@.take(i + 1));
        }
        i = i + 1;
    }
    assert(images@.take(images.len() as int) =~= images@);
    out
}


/// Oldest first: `c[i]` goes before `c[j]` when it was created earlier, then
/// by id, then by position (so equal keys keep their order).
pub open spec fn older(c: Seq<&ImageFacts>, i: int, j: int) -> bool {
    let a = c[i];
    let b = c[j];
    ||| a.created < b.created
    ||| a.created == b.created && seq_lt(a.id@, b.id@)
    ||| a.created == b.created && a.id@ == b.id@ && i < j
}

/// `order` lists every position of `c` exactly once, oldest first.
pub open spec fn oldest_first(c: Seq<&ImageFacts>, order: Seq<int>) -> bool {
    &&& order.len() == c.len()
    &&& forall|k: int| 0 <= k < order.len() ==> 0 <= #[trigger] order[k] < c.len()
    &&& forall|k: int, l: int| 0 <= k < l < order.len() ==> older(c, #[trigger] order[k], #[trigger] order[l])
}

/// The sizes of `c` in the order `order`.
pub open spec fn sizes_in(c: Seq<&ImageFacts>, order: Seq<int>) -> Seq<i64> {
    order.map_values(|k: int| c[k].size)
}

/// The sum of the first `m` of `s`.
pub open spec fn prefix_sum(s: Seq<i64>, m: int) -> int
    decreases m,
{
    if m <= 0 || s.len() == 0 {
        0
    } else if m > s.len() {
        prefix_sum(s, s.len() as int)
    } else {
        prefix_sum(s, m - 1) + s[m - 1]
    }
}

/// How many of `sizes` are taken when one takes them in order while fewer
/// than `need` bytes (starting from `freed`) have been gathered.
pub open spec fn take_count(sizes: Seq<i64>, need: i64, freed: int) -> nat
    decreases sizes.len(),
{
    if sizes.len() == 0 || freed >= need {
        0
    } else {
        1 + take_count(sizes.drop_first(), need, freed + sizes[0])
    }
}

/// The plan for `c` under the order `order`: the oldest images, up to the
/// first one at which `need` bytes are covered.
pub open spec fn planned(c: Seq<&ImageFacts>, order: Seq<int>, need: i64) -> Seq<ImageFacts> {
    order.take(take_count(sizes_in(c, order), need, 0) as int).map_values(|k: int| *c[k])
}

/// A running total of `m` sizes stays within `m` times the largest `i64`
/// magnitude.
proof fn lemma_prefix_sum_bound(s: Seq<i64>, m: int)
    requires
        0 <= m <= s.len(),
    ensures
        -(m * 0x8000_0000_0000_0000) <= prefix_sum(s, m) <= m * 0x8000_0000_0000_0000,
    decreases m,
{
    if m > 0 {
        lemma_prefix_sum_bound(s, m - 1);
    }
}

proof fn lemma_older_transitive(c: Seq<&ImageFacts>, i: int, j: int, k: int)
    requires
        older(c, i, j),
        older(c, j, k),
    ensures
        older(c, i, k),
{
    let (a, b, d) = (c[i], c[j], c[k]);
    if a.created == b.created && b.created == d.created {
        if seq_lt(a.id@, b.id@) && seq_lt(b.id@, d.id@) {
            lemma_seq_lt_transitive(a.id@, b.id@, d.id@);
        }
    }
}

proof fn lemma_older_total(c: Seq<&ImageFacts>, i: int, j: int)
    requires
        i != j,
    ensures
        older(c, i, j) || older(c, j, i),
{
    if c[i].created == c[j].created && c[i].id@ != c[j].id@ {
        lemma_seq_lt_total(c[i].id@, c[j].id@);
    }
}

fn is_older(c: &Vec<&ImageFacts>, ids: &Vec<Vec<char>>, i: usize, j: usize) -> (b: bool)
    requires
        i < c.len(),
        j < c.len(),
        ids.len() == c.len(),
        forall|k: int| 0 <= k < c.len() ==> #[trigger] ids@[k]@ == c@[k].id@,
    ensures
        b == older(c@, i as int, j as int),
{
    let a = c[i];
    let d = c[j];
    if a.created != d.created {
        return a.created < d.created;
    }
    if chars_lt(&ids[i], &ids[j]) {
        return true;
    }
    if chars_lt(&ids[j], &ids[i]) {
        return false;
    }
    proof {
        if ids@[i as int]@ != ids@[j as int]@ {
            lemma_seq_lt_total(ids@[i as int]@, ids@[j as int]@);
        }
    }
    i < j
}

proof fn lemma_take_count_step(sizes: Seq<i64>, need: i64, freed: int, k: int)
    requires
        0 <= k < sizes.len(),
        freed < need,
    ensures
        take_count(sizes.skip(k), need, freed) == 1 + take_count(sizes.skip(k + 1), need, freed + sizes[k]),
{
    assert(sizes.skip(k).drop_first() =~= sizes.skip(k + 1));
}

/// The images to remove, oldest first, stopping once `need_bytes` is covered.
/// `need_bytes <= 0` takes nothing; a need larger than everything takes all.
pub fn plan<'a>(candidates: Vec<&'a ImageFacts>, need_bytes: i64) -> (out: Vec<&'a ImageFacts>)
    ensures
        exists|order: Seq<int>|
            oldest_first(candidates@, order) && derefs(out@) == planned(candidates@, order, need_bytes),
        need_bytes <= 0 ==> out.len() == 0,
{
    let n = candidates.len();
    // The ids as character vectors, for comparison.
    let mut ids: Vec<Vec<char>> = Vec::new();
    let mut i: usize = 0;
    while i < n
        invariant
            n == candidates.len(),
            i <= n,
            ids.len() == i,
            forall|k: int| 0 <= k < i ==> #[trigger] ids@[k]@ == candidates@[k].id@,
        decreases n - i,
    {
        ids.push(chars_of(candidates[i].id.as_str()));
        i = i + 1;
    }

    // Insertion sort of the positions, oldest first.
    let mut order: Vec<usize> = Vec::new();
    let mut i: usize = 0;
    while i < n
        invariant
            n == candidates.len(),
            i <= n,
            ids.len() == n,
            forall|k: int| 0 <= k < n ==> #[trigger] ids@[k]@ == candidates@[k].id@,
            order.len() == i,
            forall|k: int| 0 <= k < order.len() ==> #[trigger] order@[k] < i,
            forall|k: int, l: int| 0 <= k < l < order.len() ==>
                older(candidates@, #[trigger] order@[k] as int, #[trigger] order@[l] as int),
        decreases n - i,
    {
        let mut p: usize = 0;
        while p < order.len() && is_older(&candidates, &ids, order[p], i)
            invariant
                n == candidates.len(),
                i < n,
                ids.len() == n,
                forall|k: int| 0 <= k < n ==> #[trigger] ids@[k]@ == candidates@[k].id@,
                p <= order.len(),
                forall|k: int| 0 <= k < order.len() ==> #[trigger] order@[k] < i,
                forall|k: int| 0 <= k < p ==> older(candidates@, #[trigger] order@[k] as int, i as int),
            decreases order.len() - p,
        {
            p = p + 1;
        }
        proof {
            if p < order.len() {
                lemma_older_total(candidates@, order@[p as int] as int, i as int);
                assert forall|l: int| p <= l < order.len() implies older(candidates@, i as int, #[trigger] order@[l] as int) by {
                    if l > p {
                        lemma_older_transitive(candidates@, i as int, order@[p as int] as int, order@[l] as int);
                    }
                }
            }
        }
        let ghost before = order@;
        order.insert(p, i);
        assert forall|k: int, l: int| 0 <= k < l < order.len() implies
            older(candidates@, #[trigger] order@[k] as int, #[trigger] order@[l] as int) by {
            if k < p && l == p {
            } else if k == p && l > p {
                assert(order@[l] == before[l - 1]);
            } else if k < p && l > p {
                assert(order@[l] == before[l - 1]);
            } else if l < p {
            } else {
                assert(order@[k] == before[k - 1]);
                assert(order@[l] == before[l - 1]);
            }
        }
        i = i + 1;
    }
    let ghost ord: Seq<int> = order@.map_values(|x: usize| x as int);
    assert(oldest_first(candidates@, ord));
    let ghost sizes = sizes_in(candidates@, ord);

    // Take the oldest until enough is covered.
    // Summed wide, so no total of image sizes can overflow.
    let mut freed: i128 = 0;
    let mut out: Vec<&'a ImageFacts> = Vec::new();
    let mut k: usize = 0;
    assert(sizes.skip(0) =~= sizes);
    while k < n
        invariant_except_break
            n == candidates.len(),
            order.len() == n,
            k <= n,
            ord == order@.map_values(|x: usize| x as int),
            oldest_first(candidates@, ord),
            sizes == sizes_in(candidates@, ord),
            sizes.len() == n,
            n <= usize::MAX,
            freed == prefix_sum(sizes, k as int),
            take_count(sizes, need_bytes, 0) == k + take_count(sizes.skip(k as int), need_bytes, freed as int),
            derefs(out@) == ord.take(k as int).map_values(|j: int| *candidates@[j]),
        ensures
            k <= n,
            derefs(out@) == ord.take(k as int).map_values(|j: int| *candidates@[j]),
            take_count(sizes, need_bytes, 0) == k,
        decreases n - k,
    {
        if freed >= need_bytes as i128 {
            assert(take_count(sizes.skip(k as int), need_bytes, freed as int) == 0);
            break;
        }
        let img = candidates[order[k]];
        proof {
            lemma_take_count_step(sizes, need_bytes, freed as int, k as int);
            assert(sizes[k as int] == img.size);
            assert(prefix_sum(sizes, k + 1) == prefix_sum(sizes, k as int) + sizes[k as int]);
            lemma_prefix_sum_bound(sizes, k + 1);
            assert((k + 1) * 0x8000_0000_0000_0000 <= 0x1_0000_0000_0000_0000 * 0x8000_0000_0000_0000) by (nonlinear_arith)
                requires
                    k + 1 <= 0x1_0000_0000_0000_0000,
            ;
        }
        freed = freed + img.size as i128;
        let ghost before = out@;
        out.push(img);
        assert(derefs(out@) =~= ord.take(k + 1).map_values(|j: int| *candidates@[j])) by {
            assert(derefs(before) =~= ord.take(k as int).map_values(|j: int| *candidates@[j]));
            assert(derefs(out@) =~= derefs(before).push(*img));
            assert(ord[k as int] == order@[k as int] as int);
            assert(ord.take(k + 1) =~= ord.take(k as int).push(ord[k as int]));
        }
        k = k + 1;
    }
    proof {
        if k == n {
            assert(sizes.skip(k as int).len() == 0);
        }
        if need_bytes <= 0 {
            assert(take_count(sizes, need_bytes, 0) == 0);
        }
    }
    assert(derefs(out@) == planned(candidates@, ord, need_bytes));
    out
}


/// Every image the selection returns may be reclaimed: none is in use by any
/// container, none carries a protected tag, and none is younger than the floor.
pub proof fn law_selected_images_are_unused_unprotected_and_old(
    images: Seq<ImageFacts>,
    in_use: Seq<String>,
    protected: Seq<String>,
    now: i64,
    min_age_secs: i64,
)
    ensures
        forall|k: int| 0 <= k < reclaimable_spec(images, in_use, protected, now, min_age_secs).len() ==>
            may_reclaim(#[trigger] reclaimable_spec(images, in_use, protected, now, min_age_secs)[k], in_use, protected, now, min_age_secs),
{
    let pred = |img: ImageFacts| may_reclaim(img, in_use, protected, now, min_age_secs);
    let r = images.filter(pred);
    assert forall|k: int| 0 <= k < r.len() implies may_reclaim(#[trigger] r[k], in_use, protected, now, min_age_secs) by {
        images.lemma_filter_pred(pred, k);
    }
}

/// The rules can only protect: with more images in use, more tags protected,
/// a higher age floor or an earlier clock, every image still selected was
/// selected before.
pub proof fn law_stricter_rules_select_no_new_image(
    images: Seq<ImageFacts>,
    in_use: Seq<String>,
    protected: Seq<String>,
    min_age_secs: i64,
    more_in_use: Seq<String>,
    more_protected: Seq<String>,
    higher_min_age_secs: i64,
    now: i64,
    earlier_now: i64,
)
    requires
        forall|k: int| 0 <= k < in_use.len() ==> listed(more_in_use, #[trigger] in_use[k]@),
        forall|k: int| 0 <= k < protected.len() ==> listed(more_protected, #[trigger] protected[k]@),
        min_age_secs <= higher_min_age_secs,
        earlier_now <= now,
    ensures
        forall|k: int| 0 <= k < reclaimable_spec(images, more_in_use, more_protected, earlier_now, higher_min_age_secs).len() ==>
            reclaimable_spec(images, in_use, protected, now, min_age_secs).contains(
                #[trigger] reclaimable_spec(images, more_in_use, more_protected, earlier_now, higher_min_age_secs)[k],
            ),
{
    let loose = |img: ImageFacts| may_reclaim(img, in_use, protected, now, min_age_secs);
    let strict = |img: ImageFacts| may_reclaim(img, more_in_use, more_protected, earlier_now, higher_min_age_secs);
    let r = images.filter(strict);
    assert forall|k: int| 0 <= k < r.len() implies images.filter(loose).contains(#[trigger] r[k]) by {
        images.lemma_filter_pred(strict, k);
        let x = r[k];
        assert(r.contains(x));
        images.lemma_filter_contains_rev(strict, x);
        let i = choose|i: int| 0 <= i < images.len() && images[i] == x;
        if listed(in_use, x.id@) {
            let j = choose|j: int| 0 <= j < in_use.len() && #[trigger] in_use[j]@ == x.id@;
            assert(listed(more_in_use, in_use[j]@));
        }
        if has_protected_tag(x, protected) {
            let t = choose|t: int| 0 <= t < x.repo_tags@.len() && listed(protected, #[trigger] x.repo_tags@[t]@);
            let j = choose|j: int| 0 <= j < protected.len() && #[trigger] protected[j]@ == x.repo_tags@[t]@;
            assert(listed(more_protected, protected[j]@));
        }
        assert(loose(x));
        images.lemma_filter_contains(loose, i);
    }
}

/// Oldest first: every image the plan takes is older than every candidate it
/// leaves, so the newest images (the plausible rollback targets) are kept.
pub proof fn law_plan_keeps_the_newest(c: Seq<&ImageFacts>, order: Seq<int>, need_bytes: i64, a: int, b: int)
    requires
        oldest_first(c, order),
        0 <= a < take_count(sizes_in(c, order), need_bytes, 0),
        take_count(sizes_in(c, order), need_bytes, 0) <= b < c.len(),
    ensures
        older(c, order[a], order[b]),
{
    lemma_take_count_bounded(sizes_in(c, order), need_bytes, 0);
}

proof fn lemma_take_count_bounded(sizes: Seq<i64>, need: i64, freed: int)
    ensures
        take_count(sizes, need, freed) <= sizes.len(),
    decreases sizes.len(),
{
    if sizes.len() > 0 && freed < need {
        lemma_take_count_bounded(sizes.drop_first(), need, freed + sizes[0]);
    }
}

proof fn lemma_prefix_sum_shift(sizes: Seq<i64>, m: int)
    requires
        0 < sizes.len(),
        0 <= m <= sizes.len() - 1,
    ensures
        prefix_sum(sizes, m + 1) == sizes[0] + prefix_sum(sizes.drop_first(), m),
    decreases m,
{
    let d = sizes.drop_first();
    if m > 0 {
        lemma_prefix_sum_shift(sizes, m - 1);
        assert(prefix_sum(d, m) == prefix_sum(d, m - 1) + d[m - 1]);
        assert(prefix_sum(sizes, m + 1) == prefix_sum(sizes, m) + sizes[m]);
    } else {
        assert(prefix_sum(sizes, 1) == prefix_sum(sizes, 0) + sizes[0]);
        assert(prefix_sum(d, 0) == 0);
    }
}

proof fn lemma_take_count_meaning(sizes: Seq<i64>, need: i64, freed: int)
    ensures
        ({
            let m = take_count(sizes, need, freed) as int;
            &&& m <= sizes.len()
            &&& (m == sizes.len() || freed + prefix_sum(sizes, m) >= need)
            &&& forall|j: int| 0 <= j < m ==> freed + #[trigger] prefix_sum(sizes, j) < need
        }),
    decreases sizes.len(),
{
    lemma_take_count_bounded(sizes, need, freed);
    if sizes.len() > 0 && freed < need {
        let rest = sizes.drop_first();
        lemma_take_count_meaning(rest, need, freed + sizes[0]);
        let m = take_count(sizes, need, freed) as int;
        if m < sizes.len() {
            lemma_prefix_sum_shift(sizes, m - 1);
        }
        assert forall|j: int| 0 <= j < m implies freed + #[trigger] prefix_sum(sizes, j) < need by {
            if j > 0 {
                lemma_prefix_sum_shift(sizes, j - 1);
                assert(freed + sizes[0] + prefix_sum(rest, j - 1) < need);
            }
        }
    }
}

/// The plan stops as soon as it has enough: the images it takes cover
/// `need_bytes` (or it took every candidate), and every shorter prefix of the
/// oldest-first order would not have.
pub proof fn law_plan_takes_just_enough(c: Seq<&ImageFacts>, order: Seq<int>, need_bytes: i64)
    requires
        oldest_first(c, order),
    ensures
        ({
            let sizes = sizes_in(c, order);
            let m = take_count(sizes, need_bytes, 0) as int;
            &&& m == c.len() || prefix_sum(sizes, m) >= need_bytes
            &&& forall|j: int| 0 <= j < m ==> #[trigger] prefix_sum(sizes, j) < need_bytes
        }),
{
    lemma_take_count_meaning(sizes_in(c, order), need_bytes, 0);
}

}
