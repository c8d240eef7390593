//! The ingest pipeline's fold logic. A streamed import answers one response
//! per arriving element, in order, never aborting the stream on a bad one: a
//! decoded request becomes a created task, a failed decode becomes a failure
//! response. A chunked upload folds arriving chunks into one state — metadata
//! from the first chunk naming each field, payload bytes concatenated in
//! arrival order — and commits only once, after the stream ends. The caller
//! drives the stream; every step of the fold is verified here.

use vstd::prelude::*;
use crate::types::{
    Task, TaskView, Timestamp, CreateTaskRequest, task_from_request, task_of_request,
};
use crate::store::{Storage, put_task_view, stamped_task};
use crate::alist::al_get;
use crate::ident::fresh_uuid;
use crate::clock::now_timestamp;

verus! {

/// The answer to one imported element.
#[derive(Debug)]
pub struct CreateTaskResponse {
    pub task: Option<Task>,
    pub success: bool,
    pub message: String,
}

/// Ghost image of a `CreateTaskResponse`.
#[verifier::ext_equal]
pub ghost struct CreateTaskResponseView {
    pub task: Option<TaskView>,
    pub success: bool,
    pub message: Seq<char>,
}

impl View for CreateTaskResponse {
    type V = CreateTaskResponseView;

    open spec fn view(&self) -> CreateTaskResponseView {
        CreateTaskResponseView {
            task: self.task.deep_view(),
            success: self.success,
            message: self.message@,
        }
    }
}

/// One step of the streamed import: a decoded request is created in the
/// store and answered with success and the stored task; an element that
/// failed to decode is answered with a failure response and changes nothing.
pub fn import_item(store: &mut Storage, item: Option<CreateTaskRequest>) -> (r: CreateTaskResponse)
    requires
        old(store).wf(),
    ensures
        final(store).wf(),
        final(store).same_config(old(store)),
        match item {
            Some(req) => {
                &&& r@.success == true
                &&& r@.message == "Task imported successfully"@
                &&& (r@.task matches Some(t) && t.id.len() == 36 && (t.created_at matches Some(
                    now,
                ) && t == stamped_task(task_of_request(req@), t.id, now) && final(store)@
                    == put_task_view(old(store)@, t)))
            },
            None => {
                &&& r@.success == false
                &&& r@.task is None
                &&& r@.message == "Import failed"@
                &&& final(store)@ == old(store)@
            },
        },
{
    match item {
        Some(req) => {
            let t = store.create_task(task_from_request(req));
            let r = CreateTaskResponse {
                task: Some(t),
                success: true,
                message: "Task imported successfully".to_owned(),
            };
            proof {
                assert(r@.task =~= Some(r@.task->Some_0));
            }
            r
        },
        None => CreateTaskResponse {
            task: None,
            success: false,
            message: "Import failed".to_owned(),
        },
    }
}

/// One arriving chunk of an upload.
#[derive(Debug)]
pub struct UploadChunk {
    pub task_id: String,
    pub filename: String,
    pub content_type: String,
    pub data: Vec<u8>,
}

/// Ghost image of an `UploadChunk`.
#[verifier::ext_equal]
pub ghost struct UploadChunkView {
    pub task_id: Seq<char>,
    pub filename: Seq<char>,
    pub content_type: Seq<char>,
    pub data: Seq<u8>,
}

impl View for UploadChunk {
    type V = UploadChunkView;

    open spec fn view(&self) -> UploadChunkView {
        UploadChunkView {
            task_id: self.task_id@,
            filename: self.filename@,
            content_type: self.content_type@,
            data: self.data@,
        }
    }
}

/// The assembly state of one logical transfer.
#[derive(Debug)]
pub struct UploadState {
    pub task_id: String,
    pub filename: String,
    pub content_type: String,
    pub data: Vec<u8>,
}

/// Ghost image of an `UploadState`.
#[verifier::ext_equal]
pub ghost struct UploadStateView {
    pub task_id: Seq<char>,
    pub filename: Seq<char>,
    pub content_type: Seq<char>,
    pub data: Seq<u8>,
}

impl View for UploadState {
    type V = UploadStateView;

    open spec fn view(&self) -> UploadStateView {
        UploadStateView {
            task_id: self.task_id@,
            filename: self.filename@,
            content_type: self.content_type@,
            data: self.data@,
        }
    }
}

/// An empty transfer: no metadata yet, no bytes.
pub fn upload_start() -> (st: UploadState)
    ensures
        st@.task_id.len() == 0,
        st@.filename.len() == 0,
        st@.content_type.len() == 0,
        st@.data.len() == 0,
{
    UploadState {
        task_id: String::new(),
        filename: String::new(),
        content_type: String::new(),
        data: Vec::new(),
    }
}

/// Folds one chunk in: each metadata field is taken from the first chunk in
/// which it is non-empty, and the payload bytes are appended in arrival
/// order.
pub fn upload_chunk(st: &mut UploadState, chunk: UploadChunk)
    ensures
        final(st)@.task_id == if old(st)@.task_id.len() > 0 {
            old(st)@.task_id
        } else {
            chunk@.task_id
        },
        final(st)@.filename == if old(st)@.filename.len() > 0 {
            old(st)@.filename
        } else {
            chunk@.filename
        },
        final(st)@.content_type == if old(st)@.content_type.len() > 0 {
            old(st)@.content_type
        } else {
            chunk@.content_type
        },
        final(st)@.data == old(st)@.data + chunk@.data,
{
    let mut chunk = chunk;
    if st.task_id.as_str().is_empty() {
        st.task_id = chunk.task_id;
    }
    if st.filename.as_str().is_empty() {
        st.filename = chunk.filename;
    }
    if st.content_type.as_str().is_empty() {
        st.content_type = chunk.content_type;
    }
    st.data.append(&mut chunk.data);
}

/// What finishing an upload reports back.
#[derive(Debug)]
pub struct UploadResponse {
    pub attachment_id: String,
    pub filename: String,
    pub file_size: u64,
    pub success: bool,
}

/// Ghost image of an `UploadResponse`.
#[verifier::ext_equal]
pub ghost struct UploadResponseView {
    pub attachment_id: Seq<char>,
    pub filename: Seq<char>,
    pub file_size: u64,
    pub success: bool,
}

impl View for UploadResponse {
    type V = UploadResponseView;

    open spec fn view(&self) -> UploadResponseView {
        UploadResponseView {
            attachment_id: self.attachment_id@,
            filename: self.filename@,
            file_size: self.file_size,
            success: self.success,
        }
    }
}

/// The single commit after the inbound stream ends: the owning task, if it
/// is stored, gets a fresh update stamp, and the transfer is reported with
/// its identifier and total byte length. Nothing was committed earlier.
pub fn upload_finish_at(
    store: &mut Storage,
    st: UploadState,
    attachment_id: String,
    now: Timestamp,
) -> (r: UploadResponse)
    requires
        old(store).wf(),
        st@.data.len() <= u64::MAX,
    ensures
        final(store).wf(),
        final(store).same_config(old(store)),
        r@.attachment_id == attachment_id@,
        r@.filename == st@.filename,
        r@.file_size == st@.data.len(),
        r@.success == true,
        match al_get(old(store)@.tasks, st@.task_id) {
            Some(t) => final(store)@ == put_task_view(
                old(store)@,
                TaskView { updated_at: Some(now), ..t },
            ),
            None => final(store)@ == old(store)@,
        },
{
    let file_size = st.data.len() as u64;
    match store.get_task(st.task_id.as_str()) {
        Some(mut t) => {
            t.updated_at = Some(now);
            let ghost tv = t@;
            proof {
                assert(tv =~= (TaskView {
                    updated_at: Some(now),
                    ..al_get(store@.tasks, st@.task_id)->Some_0
                }));
            }
            store.update_task(t);
        },
        None => {},
    }
    UploadResponse { attachment_id, filename: st.filename, file_size, success: true }
}

/// Finishes an upload under a freshly drawn attachment identifier, at the
/// clock's reading; see `upload_finish_at`.
pub fn upload_finish(store: &mut Storage, st: UploadState) -> (r: UploadResponse)
    requires
        old(store).wf(),
        st@.data.len() <= u64::MAX,
    ensures
        final(store).wf(),
        final(store).same_config(old(store)),
        r@.attachment_id.len() == 36,
        r@.filename == st@.filename,
        r@.file_size == st@.data.len(),
        r@.success == true,
        match al_get(old(store)@.tasks, st@.task_id) {
            Some(t) => exists|now: Timestamp|
                final(store)@ == #[trigger] put_task_view(
                    old(store)@,
                    TaskView { updated_at: Some(now), ..t },
                ),
            None => final(store)@ == old(store)@,
        },
{
    let id = fresh_uuid();
    let now = now_timestamp();
    let r = upload_finish_at(store, st, id, now);
    proof {
        match al_get(old(store)@.tasks, st@.task_id) {
            Some(t) => {
                assert(final(store)@ == put_task_view(
                    old(store)@,
                    TaskView { updated_at: Some(now), ..t },
                ));
            },
            None => {},
        }
    }
    r
}

} // verus!
