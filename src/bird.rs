//! Birds and bird packs, as fetched from the catalog.

use vstd::prelude::*;
use vstd::string::StringExecFns;
use crate::date::Date;

verus! {

/// The path under the storage service's base URL where public objects are served.
pub const STORAGE_OBJECT_PREFIX: &'static str = "/storage/v1/object/public/";

/// A recording of a bird.
#[derive(Debug)]
pub struct Sound {
    pub path: String,
    pub default_: bool,
}

/// A bird of the catalog. Two birds are the same bird when their ids are equal.
#[derive(Debug)]
pub struct Bird {
    pub id: u64,
    pub common_name: String,
    pub scientific_name: String,
    pub image: String,
    pub sounds: Vec<Sound>,
}

/// A pack of birds of the catalog, possibly assigned to a calendar day.
#[derive(Debug)]
pub struct BirdPack {
    pub id: u64,
    pub name: String,
    pub description: String,
    pub birds: Vec<Bird>,
    pub day: Option<Date>,
}

/// The URL of a public object of the storage service whose API is at `api_url`.
pub open spec fn object_url(api_url: Seq<char>, path: Seq<char>) -> Seq<char> {
    api_url + STORAGE_OBJECT_PREFIX@ + path
}

/// The URL of the public object at `path` in the storage service whose API is at `api_url`.
pub fn storage_object_url(api_url: &str, path: &str) -> (r: String)
    ensures
        r@ == object_url(api_url@, path@),
{
    let mut s = String::from_str(api_url);
    s.append(STORAGE_OBJECT_PREFIX);
    s.append(path);
    s
}

impl Clone for Sound {
    fn clone(&self) -> (r: Self)
        ensures
            r == *self,
    {
        Sound { path: self.path.clone(), default_: self.default_ }
    }
}

impl Clone for Bird {
    fn clone(&self) -> (r: Self)
        ensures
            r.id == self.id,
            r.common_name == self.common_name,
            r.scientific_name == self.scientific_name,
            r.image == self.image,
            r.sounds@ == self.sounds@,
    {
        let sounds = self.sounds.clone();
        assert(sounds@ =~= self.sounds@);
        Bird {
            id: self.id,
            common_name: self.common_name.clone(),
            scientific_name: self.scientific_name.clone(),
            image: self.image.clone(),
            sounds,
        }
    }
}

impl PartialEq for Bird {
    fn eq(&self, other: &Bird) -> (r: bool) {
        self.id == other.id
    }
}

impl vstd::std_specs::cmp::PartialEqSpecImpl for Bird {
    open spec fn obeys_eq_spec() -> bool {
        true
    }

    open spec fn eq_spec(&self, other: &Bird) -> bool {
        self.id == other.id
    }
}

impl Bird {
    /// The bird's catalog id.
    pub fn id(&self) -> (r: u64)
        ensures
            r == self.id,
    {
        self.id
    }

    /// The URL of the bird's image in the storage service whose API is at `api_url`.
    pub fn image_url(&self, api_url: &str) -> (r: String)
        ensures
            r@ == object_url(api_url@, self.image@),
    {
        storage_object_url(api_url, self.image.as_str())
    }

    /// The URL of the bird's first recording in the storage service whose API is at `api_url`.
    pub fn default_sound_url(&self, api_url: &str) -> (r: String)
        requires
            self.sounds.len() > 0,
        ensures
            r@ == object_url(api_url@, self.sounds[0].path@),
    {
        storage_object_url(api_url, self.sounds[0].path.as_str())
    }
}

impl PartialEq for BirdPack {
    fn eq(&self, other: &BirdPack) -> (r: bool) {
        self.id == other.id
    }
}

impl vstd::std_specs::cmp::PartialEqSpecImpl for BirdPack {
    open spec fn obeys_eq_spec() -> bool {
        true
    }

    open spec fn eq_spec(&self, other: &BirdPack) -> bool {
        self.id == other.id
    }
}

} // verus!
