//! The photo record, its path identity and the names derived from it.
use vstd::prelude::*;
use vstd::string::StringExecFns;

verus! {

/// Name of the directory that holds the photos of the shared public scope.
pub const PUBLIC_USER_FOLDER: &'static str = "public";

/// A library entry. `user_id` is the owner, absent for the public scope; the
/// triple (`user_id`, `folder`, `name`) is the photo's path identity.
/// Timestamps are whole seconds since the Unix epoch.
#[derive(Debug)]
pub struct Photo {
    pub id: i64,
    pub user_id: Option<String>,
    pub name: String,
    pub created_at: i64,
    pub file_size: i64,
    pub folder: Option<String>,
    pub thumb_hash: Option<Vec<u8>>,
    pub trashed_on: Option<i64>,
}

/// The mathematical value of a `Photo`.
pub struct PhotoView {
    pub id: i64,
    pub user_id: Option<Seq<char>>,
    pub name: Seq<char>,
    pub created_at: i64,
    pub file_size: i64,
    pub folder: Option<Seq<char>>,
    pub thumb_hash: Option<Seq<u8>>,
    pub trashed_on: Option<i64>,
}

pub open spec fn opt_chars(o: Option<String>) -> Option<Seq<char>> {
    match o {
        Some(s) => Some(s@),
        None => None,
    }
}

pub open spec fn opt_str_chars(o: Option<&str>) -> Option<Seq<char>> {
    match o {
        Some(s) => Some(s@),
        None => None,
    }
}

pub open spec fn opt_bytes(o: Option<Vec<u8>>) -> Option<Seq<u8>> {
    match o {
        Some(v) => Some(v@),
        None => None,
    }
}

impl View for Photo {
    type V = PhotoView;

    open spec fn view(&self) -> PhotoView {
        PhotoView {
            id: self.id,
            user_id: opt_chars(self.user_id),
            name: self.name@,
            created_at: self.created_at,
            file_size: self.file_size,
            folder: opt_chars(self.folder),
            thumb_hash: opt_bytes(self.thumb_hash),
            trashed_on: self.trashed_on,
        }
    }
}

/// Path identity key inside one owner's directory: `folder/name` when a
/// non-empty folder is given, else `name`.
pub open spec fn full_name_of(name: Seq<char>, folder: Option<Seq<char>>) -> Seq<char> {
    if folder is Some && folder->0.len() > 0 {
        folder->0 + seq!['/'] + name
    } else {
        name
    }
}

/// Directory name of an owner scope.
pub open spec fn owner_folder(user_id: Option<Seq<char>>) -> Seq<char> {
    match user_id {
        Some(u) => u,
        None => PUBLIC_USER_FOLDER@,
    }
}

/// The decimal digits of a natural number.
pub open spec fn digits_of(n: nat) -> Seq<char>
    decreases n,
{
    if n < 10 {
        seq![digit_char(n)]
    } else {
        digits_of(n / 10) + seq![digit_char(n % 10)]
    }
}

pub open spec fn digit_char(d: nat) -> char {
    (d + '0' as nat) as char
}

/// An integer written in decimal, with a leading `-` when negative.
pub open spec fn decimal_of(n: int) -> Seq<char> {
    if n < 0 {
        seq!['-'] + digits_of((-n) as nat)
    } else {
        digits_of(n as nat)
    }
}

/// File name of the rendered preview of the photo with id `id`.
pub open spec fn preview_name_of(id: i64) -> Seq<char> {
    decimal_of(id as int) + seq!['.', 'j', 'p', 'g']
}

impl PhotoView {
    pub open spec fn full_name(self) -> Seq<char> {
        full_name_of(self.name, self.folder)
    }

    /// Path relative to the storage root: the owner's directory, then the
    /// path identity key.
    pub open spec fn partial_path(self) -> Seq<char> {
        owner_folder(self.user_id) + seq!['/'] + self.full_name()
    }

    /// The photo is visible to `owner`: it is owned by `owner` or public.
    pub open spec fn visible_to(self, owner: Seq<char>) -> bool {
        self.user_id is None || self.user_id == Some(owner)
    }
}

/// Relies on the `Display` of `i64` (through `ToString`): the number in
/// decimal, with a leading `-` when negative.
#[verifier::external_body]
fn i64_to_decimal(n: i64) -> (r: String)
    ensures
        r@ == decimal_of(n as int),
{
    n.to_string()
}

pub fn clone_opt_string(o: &Option<String>) -> (r: Option<String>)
    ensures
        opt_chars(r) == opt_chars(*o),
{
    match o {
        Some(s) => Some(s.clone()),
        None => None,
    }
}

pub fn clone_bytes(v: &Vec<u8>) -> (r: Vec<u8>)
    ensures
        r@ == v@,
{
    let mut r: Vec<u8> = Vec::new();
    let mut i: usize = 0;
    while i < v.len()
        invariant
            i <= v@.len(),
            r@ == v@.subrange(0, i as int),
        decreases v@.len() - i,
    {
        r.push(v[i]);
        i = i + 1;
    }
    r
}

pub fn clone_opt_bytes(o: &Option<Vec<u8>>) -> (r: Option<Vec<u8>>)
    ensures
        opt_bytes(r) == opt_bytes(*o),
{
    match o {
        Some(v) => Some(clone_bytes(v)),
        None => None,
    }
}

impl Photo {
    pub fn id(&self) -> (r: i64)
        ensures
            r == self.id,
    {
        self.id
    }

    /// A field-by-field copy.
    pub fn duplicate(&self) -> (r: Photo)
        ensures
            r@ == self@,
    {
        Photo {
            id: self.id,
            user_id: clone_opt_string(&self.user_id),
            name: self.name.clone(),
            created_at: self.created_at,
            file_size: self.file_size,
            folder: clone_opt_string(&self.folder),
            thumb_hash: clone_opt_bytes(&self.thumb_hash),
            trashed_on: self.trashed_on,
        }
    }

    /// The path identity key inside the owner's directory.
    pub fn full_name(&self) -> (r: String)
        ensures
            r@ == self@.full_name(),
    {
        match &self.folder {
            Some(f) => Self::construct_full_name(self.name.as_str(), Some(f.as_str())),
            None => Self::construct_full_name(self.name.as_str(), None),
        }
    }

    /// The path relative to the storage root.
    pub fn partial_path(&self) -> (r: String)
        ensures
            r@ == self@.partial_path(),
    {
        let mut r = match &self.user_id {
            Some(u) => u.clone(),
            None => String::from_str(PUBLIC_USER_FOLDER),
        };
        r.append("/");
        let full = self.full_name();
        r.append(full.as_str());
        proof {
            reveal_strlit("/");
        }
        r
    }

    /// The preview file name of this photo.
    pub fn partial_preview_path(&self) -> (r: String)
        ensures
            r@ == preview_name_of(self.id),
    {
        Self::construct_partial_preview_path(self.id)
    }

    /// `folder/name` when a non-empty folder is given, else `name`.
    pub fn construct_full_name(name: &str, folder: Option<&str>) -> (r: String)
        ensures
            r@ == full_name_of(name@, opt_str_chars(folder)),
    {
        if let Some(f) = folder {
            if !f.is_empty() {
                let mut r = String::from_str(f);
                r.append("/");
                r.append(name);
                proof {
                    reveal_strlit("/");
                }
                return r;
            }
        }
        String::from_str(name)
    }

    /// The preview file name of the photo with id `photo_id`.
    pub fn construct_partial_preview_path(photo_id: i64) -> (r: String)
        ensures
            r@ == preview_name_of(photo_id),
    {
        let mut r = i64_to_decimal(photo_id);
        r.append(".jpg");
        proof {
            reveal_strlit(".jpg");
        }
        r
    }
}

/// One EXIF tag of a photo, rendered as text.
#[derive(Debug)]
pub struct ExifField {
    pub tag: String,
    pub value: String,
}

/// The content hash recorded for a photo.
#[derive(Debug)]
pub struct PhotoHash {
    pub id: i64,
    pub hash: Vec<u8>,
}

impl View for PhotoHash {
    type V = (i64, Seq<u8>);

    open spec fn view(&self) -> (i64, Seq<u8>) {
        (self.id, self.hash@)
    }
}

/// A full snapshot: the high-water mark of the event log and every active
/// photo visible to the requesting owner.
#[derive(Debug)]
pub struct FullPhotosList {
    pub event_log_id: i64,
    pub photos: Vec<Photo>,
}

} // verus!
