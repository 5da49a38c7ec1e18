//! The photos each user marked as favorites.
use vstd::prelude::*;
use vstd::string::StringExecFns;
use crate::index::PhotoLibrary;

verus! {

broadcast use vstd::seq_lib::group_seq_lib_default, vstd::seq::Seq::lemma_filter_push;

/// Pairs of photo id and user id, each pair once, in the order they were
/// added.
pub struct Favorites {
    entries: Vec<(i64, String)>,
}

pub open spec fn favorite_views(s: Seq<(i64, String)>) -> Seq<(i64, Seq<char>)> {
    s.map_values(|e: (i64, String)| (e.0, e.1@))
}

impl View for Favorites {
    type V = Seq<(i64, Seq<char>)>;

    closed spec fn view(&self) -> Seq<(i64, Seq<char>)> {
        favorite_views(self.entries@)
    }
}

/// The favorites of `user`, as photo ids in the order they were added.
pub open spec fn favorites_of(favs: Seq<(i64, Seq<char>)>, user: Seq<char>) -> Seq<i64> {
    favs.filter(|e: (i64, Seq<char>)| e.1 == user).map_values(|e: (i64, Seq<char>)| e.0)
}

/// Why a favorite cannot be changed.
#[derive(Debug, PartialEq, Eq, Structural)]
pub enum FavoriteError {
    /// No photo with that id is visible to the user.
    NotFound,
}

impl Favorites {
    pub fn new() -> (r: Favorites)
        ensures
            r@.len() == 0,
    {
        Favorites { entries: Vec::new() }
    }

    /// The pairs of photo id and user id, in the order they were added.
    pub fn entries(&self) -> (r: &Vec<(i64, String)>)
        ensures
            favorite_views(r@) == self@,
    {
        &self.entries
    }

    /// The favorites of stored pairs, each pair kept once.
    pub fn from_entries(entries: &Vec<(i64, String)>) -> (r: Favorites)
        ensures
            forall|i: int| 0 <= i < entries@.len() ==> r@.contains(#[trigger] favorite_views(entries@)[i]),
            forall|i: int| 0 <= i < r@.len() ==> favorite_views(entries@).contains(#[trigger] r@[i]),
    {
        let mut r = Favorites::new();
        let mut i: usize = 0;
        while i < entries.len()
            invariant
                i <= entries@.len(),
                forall|k: int| 0 <= k < i ==> r@.contains(#[trigger] favorite_views(entries@)[k]),
                forall|k: int| 0 <= k < r@.len() ==> favorite_views(entries@).contains(#[trigger] r@[k]),
            decreases entries@.len() - i,
        {
            let ghost before = r@;
            r.insert_favorite(entries[i].0, entries[i].1.as_str());
            proof {
                let e = favorite_views(entries@)[i as int];
                assert(e == (entries@[i as int].0, entries@[i as int].1@));
                if !before.contains(e) {
                    assert(r@[before.len() as int] == e);
                }
                assert forall|k: int| 0 <= k < i + 1 implies r@.contains(#[trigger] favorite_views(entries@)[k]) by {
                    if k < i {
                        let j = choose|j: int| 0 <= j < before.len() && before[j] == favorite_views(entries@)[k];
                        assert(r@[j] == before[j]);
                    }
                }
                assert forall|k: int| 0 <= k < r@.len() implies favorite_views(entries@).contains(#[trigger] r@[k]) by {
                    if k < before.len() {
                        assert(r@[k] == before[k]);
                    } else {
                        assert(favorite_views(entries@)[i as int] == r@[k]);
                    }
                }
            }
            i = i + 1;
        }
        r
    }

    /// The photo ids `user_id` marked, in the order they were added.
    pub fn get_favorite_photos(&self, user_id: &str) -> (r: Vec<i64>)
        ensures
            r@ == favorites_of(self@, user_id@),
    {
        let ghost fv = self@;
        let ghost pred = |e: (i64, Seq<char>)| e.1 == user_id@;
        let owner = String::from_str(user_id);
        let mut out: Vec<i64> = Vec::new();
        let mut i: usize = 0;
        while i < self.entries.len()
            invariant
                i <= self.entries@.len(),
                fv == favorite_views(self.entries@),
                fv == self@,
                owner@ == user_id@,
                pred == (|e: (i64, Seq<char>)| e.1 == user_id@),
                out@ == fv.subrange(0, i as int).filter(pred).map_values(|e: (i64, Seq<char>)| e.0),
            decreases self.entries@.len() - i,
        {
            proof {
                assert(fv.subrange(0, i + 1) == fv.subrange(0, i as int).push(fv[i as int]));
                let f = fv.subrange(0, i as int).filter(pred);
                assert(f.push(fv[i as int]).map_values(|e: (i64, Seq<char>)| e.0) =~= f.map_values(
                    |e: (i64, Seq<char>)| e.0,
                ).push(fv[i as int].0));
            }
            if self.entries[i].1 == owner {
                out.push(self.entries[i].0);
            }
            i = i + 1;
        }
        proof {
            assert(fv.subrange(0, self.entries@.len() as int) == fv);
        }
        out
    }

    /// Whether `user_id` marked photo `photo_id`.
    pub fn is_favorite(&self, photo_id: i64, user_id: &str) -> (r: bool)
        ensures
            r == self@.contains((photo_id, user_id@)),
    {
        let owner = String::from_str(user_id);
        let mut i: usize = 0;
        while i < self.entries.len()
            invariant
                i <= self.entries@.len(),
                owner@ == user_id@,
                forall|k: int| 0 <= k < i ==> #[trigger] self@[k] != (photo_id, user_id@),
            decreases self.entries@.len() - i,
        {
            proof {
                assert(self@[i as int] == (self.entries@[i as int].0, self.entries@[i as int].1@));
            }
            if self.entries[i].0 == photo_id && self.entries[i].1 == owner {
                proof {
                    assert(self@[i as int] == (photo_id, user_id@));
                }
                return true;
            }
            i = i + 1;
        }
        false
    }

    /// Marks photo `photo_id` for `user_id`; a mark already there stays single.
    pub fn insert_favorite(&mut self, photo_id: i64, user_id: &str)
        ensures
            old(self)@.contains((photo_id, user_id@)) ==> final(self)@ == old(self)@,
            !old(self)@.contains((photo_id, user_id@)) ==> final(self)@ == old(self)@.push((photo_id, user_id@)),
    {
        if !self.is_favorite(photo_id, user_id) {
            let e = (photo_id, String::from_str(user_id));
            self.entries.push(e);
            proof {
                assert(favorite_views(self.entries@) =~= favorite_views(old(self).entries@).push((photo_id, user_id@)));
            }
        }
    }

    /// Removes the mark of photo `photo_id` for `user_id`, if any.
    pub fn delete_favorite(&mut self, photo_id: i64, user_id: &str)
        ensures
            final(self)@ == old(self)@.filter(|e: (i64, Seq<char>)| e != (photo_id, user_id@)),
    {
        let ghost fv = self@;
        let ghost pred = |e: (i64, Seq<char>)| e != (photo_id, user_id@);
        let owner = String::from_str(user_id);
        let mut kept: Vec<(i64, String)> = Vec::new();
        let mut i: usize = 0;
        while i < self.entries.len()
            invariant
                i <= self.entries@.len(),
                fv == favorite_views(self.entries@),
                owner@ == user_id@,
                pred == (|e: (i64, Seq<char>)| e != (photo_id, user_id@)),
                favorite_views(kept@) == fv.subrange(0, i as int).filter(pred),
            decreases self.entries@.len() - i,
        {
            proof {
                assert(fv.subrange(0, i + 1) == fv.subrange(0, i as int).push(fv[i as int]));
            }
            if !(self.entries[i].0 == photo_id && self.entries[i].1 == owner) {
                let e = (self.entries[i].0, self.entries[i].1.clone());
                proof {
                    assert(favorite_views(kept@.push(e)) =~= favorite_views(kept@).push(fv[i as int]));
                }
                kept.push(e);
            }
            i = i + 1;
        }
        proof {
            assert(fv.subrange(0, self.entries@.len() as int) == fv);
        }
        self.entries = kept;
    }
}

/// Marks a photo for `user_id` when it is visible to them.
pub fn add_favorite(library: &PhotoLibrary, favorites: &mut Favorites, photo_id: i64, user_id: &str) -> (r: Result<(), FavoriteError>)
    requires
        library@.wf(),
    ensures
        r is Err <==> !(exists|i: int|
            0 <= i < library@.rows.len() && #[trigger] library@.rows[i].photo.id == photo_id
                && library@.rows[i].photo.visible_to(user_id@)),
        r is Err ==> final(favorites)@ == old(favorites)@,
        r is Ok && old(favorites)@.contains((photo_id, user_id@)) ==> final(favorites)@ == old(favorites)@,
        r is Ok && !old(favorites)@.contains((photo_id, user_id@)) ==> final(favorites)@ == old(
            favorites,
        )@.push((photo_id, user_id@)),
{
    match library.get_photo(photo_id, user_id) {
        Some(_) => {
            favorites.insert_favorite(photo_id, user_id);
            Ok(())
        },
        None => Err(FavoriteError::NotFound),
    }
}

/// Removes a photo from `user_id`'s favorites when it is visible to them.
pub fn delete_favorite(library: &PhotoLibrary, favorites: &mut Favorites, photo_id: i64, user_id: &str) -> (r: Result<(), FavoriteError>)
    requires
        library@.wf(),
    ensures
        r is Err <==> !(exists|i: int|
            0 <= i < library@.rows.len() && #[trigger] library@.rows[i].photo.id == photo_id
                && library@.rows[i].photo.visible_to(user_id@)),
        r is Err ==> final(favorites)@ == old(favorites)@,
        r is Ok ==> final(favorites)@ == old(favorites)@.filter(
            |e: (i64, Seq<char>)| e != (photo_id, user_id@),
        ),
{
    match library.get_photo(photo_id, user_id) {
        Some(_) => {
            favorites.delete_favorite(photo_id, user_id);
            Ok(())
        },
        None => Err(FavoriteError::NotFound),
    }
}

} // verus!
