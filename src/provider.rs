use vstd::prelude::*;
use vstd::string::StringExecFns;
use vstd::utf8::encode_utf8;

use crate::blobs::{extract_title, json_string_field};
use crate::skeleton::{
    listing_view, opt_str_view, spec_add_node, spec_get_by_path, spec_set_node, spec_to_listing,
    Listing, ListingView, NodeView, SkeletonHandle, SkeletonNode, SkeletonView,
};
use crate::text::{opt_view, string_bytes};
use crate::types::{
    RequestMessage, RequestView, ResponseMessage, ResponseView, ERR_CODE_INVALID_MSG,
    ERR_CODE_NO_SUCH_ENTITY, ERR_DESC_INVALID_MSG, ERR_DESC_NO_SUCH_ENTITY,
};

verus! {

/// The reply body of a successful mutation.
pub const SUCCESS: &'static str = "SUCCESS";

/// The error reply with this code and its description.
pub open spec fn error_reply(code: u32) -> ResponseView {
    ResponseView::Error {
        code,
        description: if code == ERR_CODE_INVALID_MSG {
            ERR_DESC_INVALID_MSG@
        } else {
            ERR_DESC_NO_SUCH_ENTITY@
        },
    }
}

/// The reply to a successful mutation.
pub open spec fn success_reply() -> ResponseView {
    ResponseView::Data { data: encode_utf8(SUCCESS@) }
}

fn make_error(code: u32) -> (r: ResponseMessage)
    requires
        code == ERR_CODE_INVALID_MSG || code == ERR_CODE_NO_SUCH_ENTITY,
    ensures
        r@ == error_reply(code),
{
    let description = if code == ERR_CODE_INVALID_MSG {
        String::from_str(ERR_DESC_INVALID_MSG)
    } else {
        String::from_str(ERR_DESC_NO_SUCH_ENTITY)
    };
    ResponseMessage::Error { code, description }
}

fn make_success() -> (r: ResponseMessage)
    ensures
        r@ == success_reply(),
{
    let s = String::from_str(SUCCESS);
    ResponseMessage::Data { data: string_bytes(&s) }
}

/// `<data_dir>/<user_id>`.
pub open spec fn user_dir(data_dir: Seq<char>, user_id: Seq<char>) -> Seq<char> {
    data_dir + "/"@ + user_id
}

/// `<data_dir>/<user_id>/blobs.bson`.
pub open spec fn skeleton_path(data_dir: Seq<char>, user_id: Seq<char>) -> Seq<char> {
    user_dir(data_dir, user_id) + "/blobs.bson"@
}

/// `<data_dir>/<user_id>/<id>.json`.
pub open spec fn blob_path(data_dir: Seq<char>, user_id: Seq<char>, id: Seq<char>) -> Seq<char> {
    user_dir(data_dir, user_id) + "/"@ + id + ".json"@
}

/// What the outside world reports after reading a blob file.
#[derive(Clone, Debug)]
pub enum BlobRead {
    /// The file holds these bytes.
    Found { data: Vec<u8> },
    /// There is no such file.
    Missing,
    /// Reading failed for another reason.
    Failed,
}

/// The reply to a lookup once the blob file has been read: its bytes, `NO_SUCH_ENTITY`
/// when there is no file, `INVALID_MSG` when reading failed.
pub fn reply_to_read(outcome: BlobRead) -> (r: ResponseMessage)
    ensures
        match outcome {
            BlobRead::Found { data } => r@ == (ResponseView::Data { data: data@ }),
            BlobRead::Missing => r@ == error_reply(ERR_CODE_NO_SUCH_ENTITY),
            BlobRead::Failed => r@ == error_reply(ERR_CODE_INVALID_MSG),
        },
{
    match outcome {
        BlobRead::Found { data } => ResponseMessage::Data { data },
        BlobRead::Missing => make_error(ERR_CODE_NO_SUCH_ENTITY),
        BlobRead::Failed => make_error(ERR_CODE_INVALID_MSG),
    }
}

/// The reply to a mutation once its files have been written: `SUCCESS` when every
/// write succeeded, `INVALID_MSG` otherwise.
pub fn reply_to_write(ok: bool) -> (r: ResponseMessage)
    ensures
        ok ==> r@ == success_reply(),
        !ok ==> r@ == error_reply(ERR_CODE_INVALID_MSG),
{
    if ok {
        make_success()
    } else {
        make_error(ERR_CODE_INVALID_MSG)
    }
}

/// What to do once the skeleton has been saved, or has failed to save.
#[derive(Debug)]
pub enum WriteAction {
    /// Write the blob file, then reply with `reply_to_write`.
    WriteBlob { path: String, data: Vec<u8> },
    /// Send this reply; nothing more is written.
    Reply { msg: ResponseMessage },
}

/// The skeleton is saved before the blob: a saved skeleton lets the blob be written,
/// a failed save fails the request with `INVALID_MSG` and writes no blob.
pub fn after_skeleton_save(saved: bool, blob_path: String, data: Vec<u8>) -> (r: WriteAction)
    ensures
        saved ==> (r matches WriteAction::WriteBlob { path, data: d } && path@ == blob_path@ && d@ == data@),
        !saved ==> (r matches WriteAction::Reply { msg } && msg@ == error_reply(ERR_CODE_INVALID_MSG)),
{
    if saved {
        WriteAction::WriteBlob { path: blob_path, data }
    } else {
        WriteAction::Reply { msg: make_error(ERR_CODE_INVALID_MSG) }
    }
}

/// What the dispatcher asks the outside world to do for a request.
#[derive(Debug)]
pub enum StorageStep {
    /// Send this reply.
    Reply { msg: ResponseMessage },
    /// Read the blob file at `path`, then reply with `reply_to_read`.
    ReadBlob { path: String },
    /// Save the skeleton to `skeleton_path` when there is one and go on as
    /// `after_skeleton_save` says; otherwise write `data` to `blob_path`. Then reply
    /// with `reply_to_write`.
    Write { skeleton_path: Option<String>, blob_path: String, data: Vec<u8> },
    /// Reply with this listing as JSON.
    List { listing: Listing },
}

/// The abstract content of a step.
pub ghost enum StepView {
    Reply { msg: ResponseView },
    ReadBlob { path: Seq<char> },
    Write { skeleton_path: Option<Seq<char>>, blob_path: Seq<char>, data: Seq<u8> },
    List { listing: ListingView },
}

impl View for StorageStep {
    type V = StepView;

    open spec fn view(&self) -> StepView {
        match self {
            StorageStep::Reply { msg } => StepView::Reply { msg: msg@ },
            StorageStep::ReadBlob { path } => StepView::ReadBlob { path: path@ },
            StorageStep::Write { skeleton_path, blob_path, data } => StepView::Write {
                skeleton_path: opt_view(*skeleton_path),
                blob_path: blob_path@,
                data: data@,
            },
            StorageStep::List { listing } => StepView::List { listing: listing_view(*listing) },
        }
    }
}

/// The node that a put or set stores: its id and the title of its blob.
pub open spec fn blob_node(id: Seq<char>, title: Seq<char>) -> NodeView {
    NodeView { id, title, child_ids: Seq::empty() }
}

/// A tenant's store: where its files live and its skeleton.
#[derive(Debug)]
pub struct Provider {
    data_dir: String,
    user_id: String,
    skeleton: SkeletonHandle,
}

impl Provider {
    pub closed spec fn inv(&self) -> bool {
        self.skeleton.inv()
    }

    pub closed spec fn data_dir_view(&self) -> Seq<char> {
        self.data_dir@
    }

    pub closed spec fn user_id_view(&self) -> Seq<char> {
        self.user_id@
    }

    pub closed spec fn skeleton_view(&self) -> SkeletonView {
        self.skeleton@
    }

    /// The listing depth budget of the skeleton.
    pub closed spec fn depth_budget(&self) -> nat {
        self.skeleton.depth_budget()
    }

    /// A store over a loaded (or new, empty) skeleton.
    pub fn new(data_dir: String, user_id: String, skeleton: SkeletonHandle) -> (r: Provider)
        requires
            skeleton.inv(),
        ensures
            r.inv(),
            r.data_dir_view() == data_dir@,
            r.user_id_view() == user_id@,
            r.skeleton_view() == skeleton@,
    {
        Provider { data_dir, user_id, skeleton }
    }

    pub fn data_dir_string(&self) -> (r: &String)
        ensures
            r@ == self.data_dir_view(),
    {
        &self.data_dir
    }

    pub fn user_id(&self) -> (r: &str)
        ensures
            r@ == self.user_id_view(),
    {
        self.user_id.as_str()
    }

    pub fn skeleton(&self) -> (r: &SkeletonHandle)
        requires
            self.inv(),
        ensures
            r.inv(),
            r@ == self.skeleton_view(),
            r.depth_budget() == self.depth_budget(),
    {
        &self.skeleton
    }

    /// The tenant's directory.
    pub fn user_data_path(&self) -> (r: String)
        ensures
            r@ == user_dir(self.data_dir_view(), self.user_id_view()),
    {
        let mut s = self.data_dir.clone();
        s.append("/");
        s.append(self.user_id.as_str());
        s
    }

    /// The file that holds the tenant's skeleton.
    pub fn skeleton_filename(&self) -> (r: String)
        ensures
            r@ == skeleton_path(self.data_dir_view(), self.user_id_view()),
    {
        let mut s = self.user_data_path();
        s.append("/blobs.bson");
        s
    }

    /// The file that holds the blob with this id.
    pub fn blob_filename(&self, id: &str) -> (r: String)
        ensures
            r@ == blob_path(self.data_dir_view(), self.user_id_view(), id@),
    {
        let mut s = self.user_data_path();
        s.append("/");
        s.append(id);
        s.append(".json");
        s
    }

    /// The skeleton node with this id.
    pub fn get_skeleton_node(&self, id: &str) -> (r: Option<SkeletonNode>)
        requires
            self.inv(),
        ensures
            match r {
                Some(n) => self.skeleton_view().nodes.contains_key(id@) && n@ == self.skeleton_view().nodes[id@],
                None => !self.skeleton_view().nodes.contains_key(id@),
            },
    {
        self.skeleton.get(id)
    }

    /// The skeleton node that a title path leads to.
    pub fn get_node_by_path(&self, path: &str) -> (r: Option<SkeletonNode>)
        requires
            self.inv(),
        ensures
            crate::skeleton::opt_node_view(r) == spec_get_by_path(self.skeleton_view(), path@),
    {
        self.skeleton.get_by_path(path)
    }

    /// Upserts the node of a blob, titled by the blob's `title`; no parent changes.
    pub fn set_node(&mut self, id: &str, data: &[u8]) -> (r: Result<(), BlobOrSkeletonError>)
        requires
            old(self).inv(),
        ensures
            final(self).inv(),
            final(self).data_dir_view() == old(self).data_dir_view(),
            final(self).user_id_view() == old(self).user_id_view(),
            match json_string_field(data@, "title"@) {
                None => r is Err && final(self).skeleton_view() == old(self).skeleton_view(),
                Some(t) => r is Ok && final(self).skeleton_view() == spec_set_node(
                    old(self).skeleton_view(),
                    blob_node(id@, t),
                ),
            },
    {
        match extract_title(data) {
            Err(_) => Err(BlobOrSkeletonError::NoTitle),
            Ok(title) => {
                self.upsert_blob_node(id, title.as_str());
                Ok(())
            },
        }
    }

    /// Upserts the node `{id, title}` with no children; no parent changes.
    pub fn upsert_blob_node(&mut self, id: &str, title: &str)
        requires
            old(self).inv(),
        ensures
            final(self).inv(),
            final(self).data_dir_view() == old(self).data_dir_view(),
            final(self).user_id_view() == old(self).user_id_view(),
            final(self).skeleton_view() == spec_set_node(old(self).skeleton_view(), blob_node(id@, title@)),
    {
        let node = SkeletonNode::new(id, title);
        proof {
            assert(node@.child_ids.no_duplicates());
        }
        let _ = self.skeleton.set_node(node);
    }

    /// Adds the node `{id, title}` under `parent`, or at the top level.
    pub fn add_blob_node(&mut self, id: &str, parent: Option<&str>, title: &str) -> (r: Result<(), BlobOrSkeletonError>)
        requires
            old(self).inv(),
        ensures
            final(self).inv(),
            final(self).data_dir_view() == old(self).data_dir_view(),
            final(self).user_id_view() == old(self).user_id_view(),
            match spec_add_node(old(self).skeleton_view(), blob_node(id@, title@), opt_str_view(parent)) {
                None => r == Err::<(), BlobOrSkeletonError>(BlobOrSkeletonError::NoSuchParent) && final(self).skeleton_view() == old(self).skeleton_view(),
                Some(w) => r is Ok && final(self).skeleton_view() == w,
            },
    {
        let node = SkeletonNode::new(id, title);
        proof {
            assert(node@.child_ids.no_duplicates());
        }
        match self.skeleton.add_node(node, parent) {
            Ok(()) => Ok(()),
            Err(_) => Err(BlobOrSkeletonError::NoSuchParent),
        }
    }

    /// Adds the node of a blob under `parent` (or the root), titled by the blob's
    /// `title`.
    pub fn put_node(&mut self, id: &str, parent: Option<&str>, data: &[u8]) -> (r: Result<(), BlobOrSkeletonError>)
        requires
            old(self).inv(),
        ensures
            final(self).inv(),
            final(self).data_dir_view() == old(self).data_dir_view(),
            final(self).user_id_view() == old(self).user_id_view(),
            match json_string_field(data@, "title"@) {
                None => r == Err::<(), BlobOrSkeletonError>(BlobOrSkeletonError::NoTitle) && final(self).skeleton_view() == old(self).skeleton_view(),
                Some(t) => match spec_add_node(old(self).skeleton_view(), blob_node(id@, t), opt_str_view(parent)) {
                    None => r == Err::<(), BlobOrSkeletonError>(BlobOrSkeletonError::NoSuchParent) && final(self).skeleton_view() == old(self).skeleton_view(),
                    Some(w) => r is Ok && final(self).skeleton_view() == w,
                },
            },
    {
        match extract_title(data) {
            Err(_) => Err(BlobOrSkeletonError::NoTitle),
            Ok(title) => self.add_blob_node(id, parent, title.as_str()),
        }
    }
}

/// The dispatcher: the skeleton after a request and the step that serves it.
/// A lookup by id reads that blob; a lookup by path reads the blob of the node the
/// path leads to, and fails with `NO_SUCH_ENTITY` when there is none, as does a
/// lookup that names neither. A put adds the blob's node under its parent and saves
/// the skeleton before the blob; a set upserts the node and writes the blob; both fail
/// with `INVALID_MSG`, changing nothing, when the blob has no title or the parent is
/// missing. A listing that cannot be made fails with `NO_SUCH_ENTITY`; a removal is
/// refused with `INVALID_MSG`.
pub open spec fn spec_respond(
    data_dir: Seq<char>,
    user_id: Seq<char>,
    v: SkeletonView,
    budget: nat,
    req: RequestView,
) -> (SkeletonView, StepView) {
    spec_respond_titled(data_dir, user_id, v, budget, req, request_title(req))
}

/// The `title` of the blob that a put or set carries.
pub open spec fn request_title(req: RequestView) -> Option<Seq<char>> {
    match req {
        RequestView::Put { data, .. } => json_string_field(data, "title"@),
        RequestView::SetBlob { data, .. } => json_string_field(data, "title"@),
        _ => None,
    }
}

/// The dispatcher once the title of a put or set is known (`None`: the blob has none).
pub open spec fn spec_respond_titled(
    data_dir: Seq<char>,
    user_id: Seq<char>,
    v: SkeletonView,
    budget: nat,
    req: RequestView,
    title: Option<Seq<char>>,
) -> (SkeletonView, StepView) {
    match req {
        RequestView::Get { id, path, .. } => match id {
            Some(i) => (v, StepView::ReadBlob { path: blob_path(data_dir, user_id, i) }),
            None => match path {
                Some(p) => match spec_get_by_path(v, p) {
                    Some(n) => (v, StepView::ReadBlob { path: blob_path(data_dir, user_id, n.id) }),
                    None => (v, StepView::Reply { msg: error_reply(ERR_CODE_NO_SUCH_ENTITY) }),
                },
                None => (v, StepView::Reply { msg: error_reply(ERR_CODE_NO_SUCH_ENTITY) }),
            },
        },
        RequestView::Put { id, parent, data, .. } => match title {
            None => (v, StepView::Reply { msg: error_reply(ERR_CODE_INVALID_MSG) }),
            Some(t) => match spec_add_node(v, blob_node(id, t), parent) {
                None => (v, StepView::Reply { msg: error_reply(ERR_CODE_INVALID_MSG) }),
                Some(w) => (
                    w,
                    StepView::Write {
                        skeleton_path: Some(skeleton_path(data_dir, user_id)),
                        blob_path: blob_path(data_dir, user_id, id),
                        data,
                    },
                ),
            },
        },
        RequestView::SetBlob { id, data, .. } => match title {
            None => (v, StepView::Reply { msg: error_reply(ERR_CODE_INVALID_MSG) }),
            Some(t) => (
                spec_set_node(v, blob_node(id, t)),
                StepView::Write { skeleton_path: None, blob_path: blob_path(data_dir, user_id, id), data },
            ),
        },
        RequestView::List { blob_id, .. } => match spec_to_listing(v, blob_id, budget) {
            Ok(l) => (v, StepView::List { listing: l }),
            Err(_) => (v, StepView::Reply { msg: error_reply(ERR_CODE_NO_SUCH_ENTITY) }),
        },
        RequestView::Remove { .. } => (v, StepView::Reply { msg: error_reply(ERR_CODE_INVALID_MSG) }),
    }
}

impl Provider {
    /// Serves a request: updates the skeleton and says what to read or write and
    /// what to reply.
    pub fn respond_to(&mut self, request: RequestMessage) -> (r: StorageStep)
        requires
            old(self).inv(),
        ensures
            final(self).inv(),
            final(self).data_dir_view() == old(self).data_dir_view(),
            final(self).user_id_view() == old(self).user_id_view(),
            (final(self).skeleton_view(), r@) == spec_respond(
                old(self).data_dir_view(),
                old(self).user_id_view(),
                old(self).skeleton_view(),
                old(self).depth_budget(),
                request@,
            ),
    {
        let title = match &request {
            RequestMessage::Put { data, .. } => extract_title(data.as_slice()).ok(),
            RequestMessage::SetBlob { data, .. } => extract_title(data.as_slice()).ok(),
            _ => None,
        };
        let t: Option<&str> = match &title {
            Some(x) => Some(x.as_str()),
            None => None,
        };
        self.respond_titled(request, t)
    }

    /// Serves a request whose blob, for a put or a set, has the title `title`
    /// (`None`: it has none).
    pub fn respond_titled(&mut self, request: RequestMessage, title: Option<&str>) -> (r: StorageStep)
        requires
            old(self).inv(),
        ensures
            final(self).inv(),
            final(self).data_dir_view() == old(self).data_dir_view(),
            final(self).user_id_view() == old(self).user_id_view(),
            (final(self).skeleton_view(), r@) == spec_respond_titled(
                old(self).data_dir_view(),
                old(self).user_id_view(),
                old(self).skeleton_view(),
                old(self).depth_budget(),
                request@,
                opt_str_view(title),
            ),
    {
        match request {
            RequestMessage::Get { id, path, .. } => match id {
                Some(i) => StorageStep::ReadBlob { path: self.blob_filename(i.as_str()) },
                None => match path {
                    Some(p) => match self.get_node_by_path(p.as_str()) {
                        Some(n) => StorageStep::ReadBlob { path: self.blob_filename(n.id()) },
                        None => StorageStep::Reply { msg: make_error(ERR_CODE_NO_SUCH_ENTITY) },
                    },
                    None => StorageStep::Reply { msg: make_error(ERR_CODE_NO_SUCH_ENTITY) },
                },
            },
            RequestMessage::Put { id, parent, data, .. } => {
                let pid: Option<&str> = match &parent {
                    Some(p) => Some(p.as_str()),
                    None => None,
                };
                let added = match title {
                    Some(t) => self.add_blob_node(id.as_str(), pid, t),
                    None => Err(BlobOrSkeletonError::NoTitle),
                };
                match added {
                    Ok(()) => {
                        let skeleton_path = Some(self.skeleton_filename());
                        let blob_path = self.blob_filename(id.as_str());
                        StorageStep::Write { skeleton_path, blob_path, data }
                    },
                    Err(_) => StorageStep::Reply { msg: make_error(ERR_CODE_INVALID_MSG) },
                }
            },
            RequestMessage::SetBlob { id, data, .. } => match title {
                Some(t) => {
                    self.upsert_blob_node(id.as_str(), t);
                    let blob_path = self.blob_filename(id.as_str());
                    StorageStep::Write { skeleton_path: None, blob_path, data }
                },
                None => StorageStep::Reply { msg: make_error(ERR_CODE_INVALID_MSG) },
            },
            RequestMessage::List { blob_id, .. } => {
                let start: Option<&str> = match &blob_id {
                    Some(b) => Some(b.as_str()),
                    None => None,
                };
                match self.skeleton.to_listing(start) {
                    Ok(listing) => StorageStep::List { listing },
                    Err(_) => StorageStep::Reply { msg: make_error(ERR_CODE_NO_SUCH_ENTITY) },
                }
            },
            RequestMessage::Remove { .. } => StorageStep::Reply { msg: make_error(ERR_CODE_INVALID_MSG) },
        }
    }
}

/// Why a put or set does not change the skeleton.
#[derive(Clone, Copy, Debug, PartialEq, Eq, Structural)]
pub enum BlobOrSkeletonError {
    /// The blob has no string `title`.
    NoTitle,
    /// The parent named is not in the skeleton.
    NoSuchParent,
}

} // verus!
