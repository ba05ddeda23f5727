//! Selecting the images whose tags contain a query.

use crate::image::{matches_view, records_view, ImageRecord, ImageView, TagMatch};
use crate::text::{contains_text, text_contains};
use vstd::prelude::*;

verus! {

/// The pairs `(img, tag)` for the first `n` tags of `img` that contain `q`,
/// in tag order.
pub open spec fn tag_matches(img: ImageView, q: Seq<char>, n: int) -> Seq<(ImageView, Seq<char>)>
    decreases n,
{
    if n <= 0 {
        Seq::empty()
    } else {
        let prev = tag_matches(img, q, n - 1);
        if contains_text(img.tags[n - 1], q) {
            prev.push((img, img.tags[n - 1]))
        } else {
            prev
        }
    }
}

/// Every pair of an image and one of its tags that contains `q`, in image
/// order and then tag order: an image appears once per matching tag.
pub open spec fn matches_among(imgs: Seq<ImageView>, q: Seq<char>) -> Seq<(ImageView, Seq<char>)>
    decreases imgs.len(),
{
    if imgs.len() == 0 {
        Seq::empty()
    } else {
        let last = imgs.last();
        matches_among(imgs.drop_last(), q) + tag_matches(last, q, last.tags.len() as int)
    }
}

proof fn lemma_tag_matches(img: ImageView, q: Seq<char>, n: int)
    requires
        0 <= n <= img.tags.len(),
    ensures
        forall|k: int|
            0 <= k < tag_matches(img, q, n).len() ==> {
                let p = #[trigger] tag_matches(img, q, n)[k];
                &&& p.0 == img
                &&& contains_text(p.1, q)
                &&& exists|t: int| 0 <= t < n && img.tags[t] == p.1
            },
        forall|t: int|
            0 <= t < n && contains_text(img.tags[t], q) ==> tag_matches(img, q, n).contains(
                (img, #[trigger] img.tags[t]),
            ),
    decreases n,
{
    if n > 0 {
        lemma_tag_matches(img, q, n - 1);
        let prev = tag_matches(img, q, n - 1);
        let cur = tag_matches(img, q, n);
        assert forall|t: int|
            0 <= t < n && contains_text(img.tags[t], q) implies cur.contains(
            (img, #[trigger] img.tags[t]),
        ) by {
            if t < n - 1 {
                let k = choose|k: int| 0 <= k < prev.len() && prev[k] == (img, img.tags[t]);
                assert(cur[k] == prev[k]);
            } else {
                assert(cur[cur.len() - 1] == (img, img.tags[t]));
            }
        }
        assert forall|k: int| 0 <= k < cur.len() implies {
            let p = #[trigger] cur[k];
            &&& p.0 == img
            &&& contains_text(p.1, q)
            &&& exists|t: int| 0 <= t < n && img.tags[t] == p.1
        } by {
            if k < prev.len() {
                assert(cur[k] == prev[k]);
                let t = choose|t: int| 0 <= t < n - 1 && img.tags[t] == prev[k].1;
                assert(0 <= t < n && img.tags[t] == cur[k].1);
            } else {
                assert(img.tags[n - 1] == cur[k].1);
            }
        }
    }
}

/// The match list is sound and complete: each pair in it is an image of the
/// list with one of that image's own tags, and the tag contains the query;
/// and each tag of each image that contains the query gives a pair in it.
pub proof fn lemma_matches_sound_and_complete(imgs: Seq<ImageView>, q: Seq<char>)
    ensures
        forall|k: int|
            0 <= k < matches_among(imgs, q).len() ==> {
                let p = #[trigger] matches_among(imgs, q)[k];
                &&& imgs.contains(p.0)
                &&& p.0.tags.contains(p.1)
                &&& contains_text(p.1, q)
            },
        forall|i: int, t: int|
            0 <= i < imgs.len() && 0 <= t < imgs[i].tags.len() && contains_text(
                #[trigger] imgs[i].tags[t],
                q,
            ) ==> matches_among(imgs, q).contains((imgs[i], imgs[i].tags[t])),
    decreases imgs.len(),
{
    if imgs.len() > 0 {
        let init = imgs.drop_last();
        let last = imgs.last();
        let n = last.tags.len() as int;
        lemma_matches_sound_and_complete(init, q);
        lemma_tag_matches(last, q, n);
        let prev = matches_among(init, q);
        let tail = tag_matches(last, q, n);
        let all = matches_among(imgs, q);
        assert(all == prev + tail);
        assert forall|k: int| 0 <= k < all.len() implies {
            let p = #[trigger] all[k];
            &&& imgs.contains(p.0)
            &&& p.0.tags.contains(p.1)
            &&& contains_text(p.1, q)
        } by {
            if k < prev.len() {
                assert(all[k] == prev[k]);
                let j = choose|j: int| 0 <= j < init.len() && init[j] == prev[k].0;
                assert(imgs[j] == init[j]);
            } else {
                assert(all[k] == tail[k - prev.len()]);
                let p = tail[k - prev.len()];
                let t = choose|t: int| 0 <= t < n && last.tags[t] == p.1;
                assert(imgs[imgs.len() - 1] == last);
                assert(last.tags[t] == p.1);
            }
        }
        assert forall|i: int, t: int|
            0 <= i < imgs.len() && 0 <= t < imgs[i].tags.len() && contains_text(
                #[trigger] imgs[i].tags[t],
                q,
            ) implies all.contains((imgs[i], imgs[i].tags[t])) by {
            if i < imgs.len() - 1 {
                assert(init[i] == imgs[i]);
                assert(init[i].tags[t] == imgs[i].tags[t]);
                let k = choose|k: int| 0 <= k < prev.len() && prev[k] == (init[i], init[i].tags[t]);
                assert(all[k] == prev[k]);
            } else {
                assert(last.tags[t] == imgs[i].tags[t]);
                let k = choose|k: int| 0 <= k < tail.len() && tail[k] == (last, last.tags[t]);
                assert(all[prev.len() + k] == tail[k]);
            }
        }
    }
}

/// Pairs each image with every one of its tags that contains `query`.
pub fn find_matches(images: &Vec<ImageRecord>, query: &str) -> (r: Vec<TagMatch>)
    ensures
        matches_view(r@) == matches_among(records_view(images@), query@),
{
    let mut out: Vec<TagMatch> = Vec::new();
    let mut i: usize = 0;
    while i < images.len()
        invariant
            i <= images@.len(),
            matches_view(out@) == matches_among(records_view(images@.take(i as int)), query@),
        decreases images@.len() - i,
    {
        let image = &images[i];
        let ghost before = matches_view(out@);
        let mut j: usize = 0;
        assert(matches_view(out@) == before + tag_matches(image@, query@, 0)) by {
            assert(matches_view(out@) =~= before + tag_matches(image@, query@, 0));
        }
        while j < image.tags.len()
            invariant
                i < images@.len(),
                image == &images@[i as int],
                j <= image.tags@.len(),
                matches_view(out@) == before + tag_matches(image@, query@, j as int),
            decreases image.tags@.len() - j,
        {
            let tag = &image.tags[j];
            if text_contains(tag.as_str(), query) {
                let m = TagMatch { image: image.clone(), tag: tag.clone() };
                let ghost mid = out@;
                out.push(m);
                assert(matches_view(out@) =~= matches_view(mid).push(m@));
                assert(matches_view(out@) =~= before + tag_matches(image@, query@, j + 1));
            }
            j = j + 1;
        }
        proof {
            let taken = records_view(images@.take(i + 1));
            assert(taken.drop_last() =~= records_view(images@.take(i as int)));
            assert(taken.last() == image@);
        }
        i = i + 1;
    }
    assert(images@.take(images@.len() as int) =~= images@);
    out
}

} // verus!
