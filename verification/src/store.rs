//! Requests to the object store and its replies, as plain values.
use crate::error::StoreError;
use crate::time::Timestamp;
use vstd::prelude::*;

verus! {

/// A text that may be missing, by its characters.
pub open spec fn text_view(text: Option<String>) -> Option<Seq<char>> {
    match text {
        Some(s) => Some(s@),
        None => None,
    }
}

/// A copy of a text that may be missing.
pub(crate) fn clone_text(text: &Option<String>) -> (copy: Option<String>)
    ensures
        text_view(copy) == text_view(*text),
{
    match text {
        Some(s) => Some(s.clone()),
        None => None,
    }
}

/// A request for an object. With an entity tag, the store sends the object only where its own tag
/// is another one, and otherwise says that it is not modified.
#[derive(Debug)]
pub struct GetRequest {
    pub path: String,
    pub if_none_match: Option<String>,
}

/// A `GetRequest` by its characters.
pub struct GetRequestView {
    pub path: Seq<char>,
    pub if_none_match: Option<Seq<char>>,
}

impl View for GetRequest {
    type V = GetRequestView;

    open spec fn view(&self) -> GetRequestView {
        GetRequestView { path: self.path@, if_none_match: text_view(self.if_none_match) }
    }
}

/// What tells the versions of an object in the store apart.
#[derive(Debug)]
pub struct UpdateVersion {
    pub e_tag: Option<String>,
    pub version: Option<String>,
}

/// An `UpdateVersion` by its characters.
pub struct UpdateVersionView {
    pub e_tag: Option<Seq<char>>,
    pub version: Option<Seq<char>>,
}

impl View for UpdateVersion {
    type V = UpdateVersionView;

    open spec fn view(&self) -> UpdateVersionView {
        UpdateVersionView { e_tag: text_view(self.e_tag), version: text_view(self.version) }
    }
}

impl UpdateVersion {
    /// A copy of this version.
    pub fn duplicate(&self) -> (copy: UpdateVersion)
        ensures
            copy@ == self@,
    {
        UpdateVersion { e_tag: clone_text(&self.e_tag), version: clone_text(&self.version) }
    }
}

/// An object as the store sent it.
#[derive(Debug)]
pub struct FetchedObject {
    pub version: UpdateVersion,
    pub bytes: Vec<u8>,
}

/// A `FetchedObject` by its contents.
pub struct FetchedObjectView {
    pub version: UpdateVersionView,
    pub bytes: Seq<u8>,
}

impl View for FetchedObject {
    type V = FetchedObjectView;

    open spec fn view(&self) -> FetchedObjectView {
        FetchedObjectView { version: self.version@, bytes: self.bytes@ }
    }
}

/// The store's reply to a `GetRequest`.
pub type GetReply<E> = Result<FetchedObject, StoreError<E>>;

/// A `GetReply` by its contents.
pub open spec fn get_reply_view<E>(reply: GetReply<E>) -> Result<
    FetchedObjectView,
    StoreError<E>,
> {
    match reply {
        Ok(object) => Ok(object@),
        Err(e) => Err(e),
    }
}

/// Under which condition an object is to be written.
#[derive(Debug)]
pub enum PutMode {
    /// Only where there is no object at the path.
    Create,
    /// Only where the object at the path is this version.
    Update(UpdateVersion),
}

/// A `PutMode` by its contents.
pub enum PutModeView {
    Create,
    Update(UpdateVersionView),
}

impl View for PutMode {
    type V = PutModeView;

    open spec fn view(&self) -> PutModeView {
        match self {
            PutMode::Create => PutModeView::Create,
            PutMode::Update(version) => PutModeView::Update(version@),
        }
    }
}

/// A request to write an object.
#[derive(Debug)]
pub struct PutRequest {
    pub path: String,
    pub payload: Vec<u8>,
    pub mode: PutMode,
}

/// A `PutRequest` by its contents.
pub struct PutRequestView {
    pub path: Seq<char>,
    pub payload: Seq<u8>,
    pub mode: PutModeView,
}

impl View for PutRequest {
    type V = PutRequestView;

    open spec fn view(&self) -> PutRequestView {
        PutRequestView { path: self.path@, payload: self.payload@, mode: self.mode@ }
    }
}

/// The store's reply to a `PutRequest`: which version the object now is.
pub type PutReply<E> = Result<UpdateVersion, StoreError<E>>;

/// A `PutReply` by its contents.
pub open spec fn put_reply_view<E>(reply: PutReply<E>) -> Result<UpdateVersionView, StoreError<E>> {
    match reply {
        Ok(version) => Ok(version@),
        Err(e) => Err(e),
    }
}

/// What a listing of the store says of one object.
#[derive(Debug, PartialEq, Eq, Hash)]
pub struct ObjectMetadata {
    pub location: String,
    pub last_modified: Timestamp,
    pub size: u64,
}

impl ObjectMetadata {
    /// A copy of these data.
    pub fn duplicate(&self) -> (copy: ObjectMetadata)
        ensures
            copy == *self,
    {
        ObjectMetadata {
            location: self.location.clone(),
            last_modified: self.last_modified,
            size: self.size,
        }
    }
}

/// What a listing of the store says of one object, with the id that the object's name gives.
#[derive(Debug, PartialEq, Eq)]
pub struct IdentifiedObjectMetadata<Id> {
    pub id: Id,
    pub metadata: ObjectMetadata,
}

impl ObjectMetadata {
    /// Whether `other` says the same of the same object.
    pub open spec fn same(self, other: ObjectMetadata) -> bool {
        &&& self.location@ == other.location@
        &&& self.last_modified == other.last_modified
        &&& self.size == other.size
    }

    /// Whether `other` says the same of the same object.
    pub fn is_same(&self, other: &ObjectMetadata) -> (b: bool)
        ensures
            b == self.same(*other),
    {
        self.location == other.location && self.last_modified == other.last_modified && self.size
            == other.size
    }
}

impl<Id: Copy> IdentifiedObjectMetadata<Id> {
    /// A copy of these data.
    pub fn duplicate(&self) -> (copy: IdentifiedObjectMetadata<Id>)
        ensures
            copy == *self,
    {
        IdentifiedObjectMetadata { id: self.id, metadata: self.metadata.duplicate() }
    }
}

/// The store's reply to a request for a listing.
pub type ListReply<E> = Result<Vec<ObjectMetadata>, StoreError<E>>;

} // verus!
