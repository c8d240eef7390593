//! In-memory entity store for a task/user management core: primary maps with
//! secondary indexes, field-mask patching, pagination tokens, a verified
//! snapshot codec for crash-consistent persistence, and the fold logic of the
//! streaming import and chunked-upload pipelines.

use vstd::prelude::*;

mod alist;
mod clock;
mod codec;
mod events;
mod ident;
mod ingest;
mod laws;
mod numstr;
mod pagination;
mod search;
mod store;
mod strutil;
mod types;

verus! {

pub use types::{
    Timestamp, TaskStatus, TaskPriority, UserStatus, TaskEventType, TaskMetrics, StoreError,
    TaskComment, CommentView, TaskAttachment, AttachmentView, UserPreferences, PreferencesView,
    UserProfile, ProfileView, User, UserView, Task, TaskView, CreateTaskRequest,
    CreateTaskRequestView, TaskAnalytics, task_from_request, task_of_request, clone_strings,
};
pub use store::{
    Storage, StoreView, list_of, ut_entry_ok, ut_ok, user_email_taken, stamped_user,
    insert_user_view, lemma_insert_user_wf, stamped_task, old_assignee_of, put_task_view,
    lemma_put_task, delete_task_view, lemma_delete_task, apply_field, apply_mask_fields,
    patched_task, lemma_apply_mask_fixed, is_overdue, tasks_with_status, tasks_with_priority,
    overdue_in, tasks_matching, users_matching, task_at, tasks_of_ids, batch_tasks_view,
    batch_users_view, tags_kept, bulk_apply, bulk_view, bulk_failed, users_keyed_by_id,
    tasks_keyed_by_id,
};
pub use pagination::{
    token_page, page_token_of, page_slice, clamp_size, parse_page_token, next_page_token,
    next_token_view, pages_concat, lemma_pagination_complete,
};
pub use search::{lower_of, lowercase, contains_seq, contains_chars, task_matches, user_matches};
pub use codec::{senc_snapshot, sdec_snapshot, view_bounded, lemma_snapshot_round_trip};
pub use events::{TaskEvent, TaskEventView, synthetic_task_view, synthetic_event_view,
    synthetic_event, next_event};
pub use ingest::{
    CreateTaskResponse, CreateTaskResponseView, import_item, UploadChunk, UploadChunkView,
    UploadState, UploadStateView, upload_start, upload_chunk, UploadResponse, UploadResponseView,
    upload_finish_at, upload_finish,
};
pub use laws::{
    lemma_masked_patch_isolation, lemma_overdue_transition, lemma_create_preserves_all_writes,
};
pub use alist::{al_contains, al_get, al_put, al_remove, al_unique, al_purge_value, seq_remove_all,
    seq_nodup, al_values};
pub use clock::now_timestamp;
pub use ident::fresh_uuid;
pub use numstr::digits_of;

} // verus!
