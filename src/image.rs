//! The image records that the container runtime reports, and their views.

use vstd::prelude::*;

verus! {

/// One image known to the runtime: its identifier, its repository tags
/// and its size in bytes.
pub struct ImageRecord {
    pub id: String,
    pub tags: Vec<String>,
    pub size: u64,
}

/// The mathematical value of an [`ImageRecord`].
pub struct ImageView {
    pub id: Seq<char>,
    pub tags: Seq<Seq<char>>,
    pub size: u64,
}

/// The view of a list of strings: the characters of each.
pub open spec fn texts_view(v: Seq<String>) -> Seq<Seq<char>> {
    v.map_values(|s: String| s@)
}

impl View for ImageRecord {
    type V = ImageView;

    open spec fn view(&self) -> ImageView {
        ImageView { id: self.id@, tags: texts_view(self.tags@), size: self.size }
    }
}

impl ImageRecord {
    pub fn new(id: String, tags: Vec<String>, size: u64) -> (r: ImageRecord)
        ensures
            r@ == (ImageView { id: id@, tags: texts_view(tags@), size }),
    {
        ImageRecord { id, tags, size }
    }
}

impl Clone for ImageRecord {
    fn clone(&self) -> (r: Self)
        ensures
            r@ == self@,
    {
        let tags = self.tags.clone();
        assert(texts_view(tags@) =~= texts_view(self.tags@));
        ImageRecord { id: self.id.clone(), tags, size: self.size }
    }
}

/// The view of a list of records.
pub open spec fn records_view(v: Seq<ImageRecord>) -> Seq<ImageView> {
    v.map_values(|r: ImageRecord| r@)
}

/// An image paired with one of its tags that matched a query.
pub struct TagMatch {
    pub image: ImageRecord,
    pub tag: String,
}

impl View for TagMatch {
    type V = (ImageView, Seq<char>);

    open spec fn view(&self) -> (ImageView, Seq<char>) {
        (self.image@, self.tag@)
    }
}

/// The view of a list of matches.
pub open spec fn matches_view(v: Seq<TagMatch>) -> Seq<(ImageView, Seq<char>)> {
    v.map_values(|m: TagMatch| m@)
}

} // verus!
