//! The entity data model: timestamps, status and priority enumerations, the
//! `User` and `Task` records with their nested blocks, and the error taxonomy.
//!
//! Each record has a ghost view (`TaskView`, `UserView`, ...) in which every
//! string is a `Seq<char>`; contracts throughout the crate speak of these
//! views. Cloning is implemented by hand so that a clone is known to have the
//! same view as the original: callers of the store receive copies and the
//! contracts can say so.

use vstd::prelude::*;

verus! {

/// A point in time as seconds since the Unix epoch plus a sub-second
/// nanosecond part.
#[derive(Clone, Copy, Debug, PartialEq, Eq, Structural)]
pub struct Timestamp {
    pub seconds: i64,
    pub nanos: i32,
}

impl Timestamp {
    pub fn new(seconds: i64, nanos: i32) -> (t: Timestamp)
        ensures
            t == (Timestamp { seconds, nanos }),
    {
        Timestamp { seconds, nanos }
    }
}

/// Lifecycle state of a task.
#[derive(Clone, Copy, Debug, PartialEq, Eq, Structural)]
pub enum TaskStatus {
    Unspecified,
    Todo,
    InProgress,
    Review,
    Done,
    Cancelled,
}

/// Priority of a task.
#[derive(Clone, Copy, Debug, PartialEq, Eq, Structural)]
pub enum TaskPriority {
    Unspecified,
    Low,
    Medium,
    High,
    Urgent,
}

/// Account state of a user.
#[derive(Clone, Copy, Debug, PartialEq, Eq, Structural)]
pub enum UserStatus {
    Unspecified,
    Active,
    Inactive,
    Suspended,
}

/// Kind of a change event on the synthetic event stream.
#[derive(Clone, Copy, Debug, PartialEq, Eq, Structural)]
pub enum TaskEventType {
    Unspecified,
    Created,
    Updated,
    Deleted,
}

/// Effort bookkeeping nested in a task. The completion share is stored in
/// whole percent.
#[derive(Clone, Copy, Debug, PartialEq, Eq, Structural)]
pub struct TaskMetrics {
    pub estimated_hours: i32,
    pub actual_hours: i32,
    pub completion_percent: u32,
}

impl TaskMetrics {
    pub fn zeroed() -> (m: TaskMetrics)
        ensures
            m == (TaskMetrics { estimated_hours: 0, actual_hours: 0, completion_percent: 0 }),
    {
        TaskMetrics { estimated_hours: 0, actual_hours: 0, completion_percent: 0 }
    }
}

/// The simple counts the analytics view reports; the aggregate figures
/// beyond plain counts are the transport layer's placeholders, not part of
/// this core.
#[derive(Clone, Copy, Debug, PartialEq, Eq, Structural)]
pub struct TaskAnalytics {
    pub total_tasks: usize,
    pub completed_tasks: usize,
    pub in_progress_tasks: usize,
    pub todo_tasks: usize,
    pub overdue_tasks: usize,
}

/// The error taxonomy of the store.
#[derive(Clone, Debug, PartialEq, Eq)]
pub enum StoreError {
    /// Lookup or patch addressed an identifier that is not present.
    NotFound,
    /// User creation with an email that is already bound.
    AlreadyExists,
    /// A required payload was missing.
    InvalidArgument,
    /// Reading, writing or renaming the snapshot file failed; carries the
    /// underlying cause as text.
    IOFailure(String),
    /// The persisted snapshot is corrupt or unparseable.
    DecodeFailure,
}

/// A comment attached to a task, in posting order.
#[derive(Debug, PartialEq)]
pub struct TaskComment {
    pub id: String,
    pub author_id: String,
    pub content: String,
    pub created_at: Option<Timestamp>,
}

/// Ghost image of a `TaskComment`.
#[verifier::ext_equal]
pub ghost struct CommentView {
    pub id: Seq<char>,
    pub author_id: Seq<char>,
    pub content: Seq<char>,
    pub created_at: Option<Timestamp>,
}

impl View for TaskComment {
    type V = CommentView;

    open spec fn view(&self) -> CommentView {
        CommentView {
            id: self.id@,
            author_id: self.author_id@,
            content: self.content@,
            created_at: self.created_at,
        }
    }
}

impl DeepView for TaskComment {
    type V = CommentView;

    open spec fn deep_view(&self) -> CommentView {
        self.view()
    }
}

impl Clone for TaskComment {
    fn clone(&self) -> (r: TaskComment)
        ensures
            r@ == self@,
    {
        let r = TaskComment {
            id: self.id.clone(),
            author_id: self.author_id.clone(),
            content: self.content.clone(),
            created_at: self.created_at,
        };
        proof {
            assert(r@ =~= self@);
        }
        r
    }
}

/// A binary attachment recorded on a task.
#[derive(Debug, PartialEq)]
pub struct TaskAttachment {
    pub id: String,
    pub filename: String,
    pub content_type: String,
    pub file_size: u64,
    pub uploaded_at: Option<Timestamp>,
    pub uploaded_by: String,
    pub url: String,
}

/// Ghost image of a `TaskAttachment`.
#[verifier::ext_equal]
pub ghost struct AttachmentView {
    pub id: Seq<char>,
    pub filename: Seq<char>,
    pub content_type: Seq<char>,
    pub file_size: u64,
    pub uploaded_at: Option<Timestamp>,
    pub uploaded_by: Seq<char>,
    pub url: Seq<char>,
}

impl View for TaskAttachment {
    type V = AttachmentView;

    open spec fn view(&self) -> AttachmentView {
        AttachmentView {
            id: self.id@,
            filename: self.filename@,
            content_type: self.content_type@,
            file_size: self.file_size,
            uploaded_at: self.uploaded_at,
            uploaded_by: self.uploaded_by@,
            url: self.url@,
        }
    }
}

impl DeepView for TaskAttachment {
    type V = AttachmentView;

    open spec fn deep_view(&self) -> AttachmentView {
        self.view()
    }
}

impl Clone for TaskAttachment {
    fn clone(&self) -> (r: TaskAttachment)
        ensures
            r@ == self@,
    {
        let r = TaskAttachment {
            id: self.id.clone(),
            filename: self.filename.clone(),
            content_type: self.content_type.clone(),
            file_size: self.file_size,
            uploaded_at: self.uploaded_at,
            uploaded_by: self.uploaded_by.clone(),
            url: self.url.clone(),
        };
        proof {
            assert(r@ =~= self@);
        }
        r
    }
}

/// Display and locale preferences nested in a user.
#[derive(Debug, PartialEq)]
pub struct UserPreferences {
    pub theme: String,
    pub language: String,
    pub timezone: String,
    pub notifications_enabled: bool,
    pub email_notifications: bool,
}

/// Ghost image of `UserPreferences`.
#[verifier::ext_equal]
pub ghost struct PreferencesView {
    pub theme: Seq<char>,
    pub language: Seq<char>,
    pub timezone: Seq<char>,
    pub notifications_enabled: bool,
    pub email_notifications: bool,
}

impl View for UserPreferences {
    type V = PreferencesView;

    open spec fn view(&self) -> PreferencesView {
        PreferencesView {
            theme: self.theme@,
            language: self.language@,
            timezone: self.timezone@,
            notifications_enabled: self.notifications_enabled,
            email_notifications: self.email_notifications,
        }
    }
}

impl DeepView for UserPreferences {
    type V = PreferencesView;

    open spec fn deep_view(&self) -> PreferencesView {
        self.view()
    }
}

impl Clone for UserPreferences {
    fn clone(&self) -> (r: UserPreferences)
        ensures
            r@ == self@,
    {
        let r = UserPreferences {
            theme: self.theme.clone(),
            language: self.language.clone(),
            timezone: self.timezone.clone(),
            notifications_enabled: self.notifications_enabled,
            email_notifications: self.email_notifications,
        };
        proof {
            assert(r@ =~= self@);
        }
        r
    }
}

/// Free-text profile block nested in a user.
#[derive(Debug, PartialEq)]
pub struct UserProfile {
    pub avatar_url: String,
    pub bio: String,
    pub department: String,
    pub phone: String,
    pub location: String,
}

/// Ghost image of `UserProfile`.
#[verifier::ext_equal]
pub ghost struct ProfileView {
    pub avatar_url: Seq<char>,
    pub bio: Seq<char>,
    pub department: Seq<char>,
    pub phone: Seq<char>,
    pub location: Seq<char>,
}

impl View for UserProfile {
    type V = ProfileView;

    open spec fn view(&self) -> ProfileView {
        ProfileView {
            avatar_url: self.avatar_url@,
            bio: self.bio@,
            department: self.department@,
            phone: self.phone@,
            location: self.location@,
        }
    }
}

impl DeepView for UserProfile {
    type V = ProfileView;

    open spec fn deep_view(&self) -> ProfileView {
        self.view()
    }
}

impl Clone for UserProfile {
    fn clone(&self) -> (r: UserProfile)
        ensures
            r@ == self@,
    {
        let r = UserProfile {
            avatar_url: self.avatar_url.clone(),
            bio: self.bio.clone(),
            department: self.department.clone(),
            phone: self.phone.clone(),
            location: self.location.clone(),
        };
        proof {
            assert(r@ =~= self@);
        }
        r
    }
}

/// A stored user.
#[derive(Debug, PartialEq)]
pub struct User {
    pub id: String,
    pub username: String,
    pub email: String,
    pub full_name: String,
    pub role: i32,
    pub is_active: bool,
    pub status: UserStatus,
    pub permissions: Vec<String>,
    pub created_at: Option<Timestamp>,
    pub updated_at: Option<Timestamp>,
    pub last_login: Option<Timestamp>,
    pub preferences: Option<UserPreferences>,
    pub profile: Option<UserProfile>,
}

/// Ghost image of a `User`.
#[verifier::ext_equal]
pub ghost struct UserView {
    pub id: Seq<char>,
    pub username: Seq<char>,
    pub email: Seq<char>,
    pub full_name: Seq<char>,
    pub role: i32,
    pub is_active: bool,
    pub status: UserStatus,
    pub permissions: Seq<Seq<char>>,
    pub created_at: Option<Timestamp>,
    pub updated_at: Option<Timestamp>,
    pub last_login: Option<Timestamp>,
    pub preferences: Option<PreferencesView>,
    pub profile: Option<ProfileView>,
}

impl View for User {
    type V = UserView;

    open spec fn view(&self) -> UserView {
        UserView {
            id: self.id@,
            username: self.username@,
            email: self.email@,
            full_name: self.full_name@,
            role: self.role,
            is_active: self.is_active,
            status: self.status,
            permissions: self.permissions.deep_view(),
            created_at: self.created_at,
            updated_at: self.updated_at,
            last_login: self.last_login,
            preferences: self.preferences.deep_view(),
            profile: self.profile.deep_view(),
        }
    }
}

impl DeepView for User {
    type V = UserView;

    open spec fn deep_view(&self) -> UserView {
        self.view()
    }
}

/// A stored task.
#[derive(Debug, PartialEq)]
pub struct Task {
    pub id: String,
    pub title: String,
    pub description: String,
    pub status: TaskStatus,
    pub priority: TaskPriority,
    pub tags: Vec<String>,
    pub assigned_to: String,
    pub created_at: Option<Timestamp>,
    pub updated_at: Option<Timestamp>,
    pub due_date: Option<Timestamp>,
    pub metrics: Option<TaskMetrics>,
    pub comments: Vec<TaskComment>,
    pub attachments: Vec<TaskAttachment>,
}

/// Ghost image of a `Task`.
#[verifier::ext_equal]
pub ghost struct TaskView {
    pub id: Seq<char>,
    pub title: Seq<char>,
    pub description: Seq<char>,
    pub status: TaskStatus,
    pub priority: TaskPriority,
    pub tags: Seq<Seq<char>>,
    pub assigned_to: Seq<char>,
    pub created_at: Option<Timestamp>,
    pub updated_at: Option<Timestamp>,
    pub due_date: Option<Timestamp>,
    pub metrics: Option<TaskMetrics>,
    pub comments: Seq<CommentView>,
    pub attachments: Seq<AttachmentView>,
}

impl View for Task {
    type V = TaskView;

    open spec fn view(&self) -> TaskView {
        TaskView {
            id: self.id@,
            title: self.title@,
            description: self.description@,
            status: self.status,
            priority: self.priority,
            tags: self.tags.deep_view(),
            assigned_to: self.assigned_to@,
            created_at: self.created_at,
            updated_at: self.updated_at,
            due_date: self.due_date,
            metrics: self.metrics,
            comments: self.comments.deep_view(),
            attachments: self.attachments.deep_view(),
        }
    }
}

impl DeepView for Task {
    type V = TaskView;

    open spec fn deep_view(&self) -> TaskView {
        self.view()
    }
}

/// Clones a vector of strings; the copy has the same view, element by element.
pub fn clone_strings(v: &Vec<String>) -> (r: Vec<String>)
    ensures
        r.deep_view() == v.deep_view(),
{
    let mut r: Vec<String> = Vec::new();
    let mut i: usize = 0;
    while i < v.len()
        invariant
            0 <= i <= v.len(),
            r@.len() == i,
            forall|j: int| 0 <= j < i ==> r.deep_view()[j] == #[trigger] v.deep_view()[j],
        decreases v.len() - i,
    {
        let x = v[i].clone();
        assert(x.deep_view() == v.deep_view()[i as int]);
        r.push(x);
        i = i + 1;
    }
    proof {
        assert(r.deep_view() =~= v.deep_view());
    }
    r
}

pub(crate) fn clone_comments(v: &Vec<TaskComment>) -> (r: Vec<TaskComment>)
    ensures
        r.deep_view() == v.deep_view(),
{
    let mut r: Vec<TaskComment> = Vec::new();
    let mut i: usize = 0;
    while i < v.len()
        invariant
            0 <= i <= v.len(),
            r@.len() == i,
            forall|j: int| 0 <= j < i ==> r.deep_view()[j] == #[trigger] v.deep_view()[j],
        decreases v.len() - i,
    {
        let x = v[i].clone();
        assert(x.deep_view() == v.deep_view()[i as int]);
        r.push(x);
        i = i + 1;
    }
    proof {
        assert(r.deep_view() =~= v.deep_view());
    }
    r
}

pub(crate) fn clone_attachments(v: &Vec<TaskAttachment>) -> (r: Vec<TaskAttachment>)
    ensures
        r.deep_view() == v.deep_view(),
{
    let mut r: Vec<TaskAttachment> = Vec::new();
    let mut i: usize = 0;
    while i < v.len()
        invariant
            0 <= i <= v.len(),
            r@.len() == i,
            forall|j: int| 0 <= j < i ==> r.deep_view()[j] == #[trigger] v.deep_view()[j],
        decreases v.len() - i,
    {
        let x = v[i].clone();
        assert(x.deep_view() == v.deep_view()[i as int]);
        r.push(x);
        i = i + 1;
    }
    proof {
        assert(r.deep_view() =~= v.deep_view());
    }
    r
}

fn clone_opt_preferences(v: &Option<UserPreferences>) -> (r: Option<UserPreferences>)
    ensures
        r.deep_view() == v.deep_view(),
{
    match v {
        Some(p) => Some(p.clone()),
        None => None,
    }
}

fn clone_opt_profile(v: &Option<UserProfile>) -> (r: Option<UserProfile>)
    ensures
        r.deep_view() == v.deep_view(),
{
    match v {
        Some(p) => Some(p.clone()),
        None => None,
    }
}

impl Clone for User {
    fn clone(&self) -> (r: User)
        ensures
            r@ == self@,
    {
        let r = User {
            id: self.id.clone(),
            username: self.username.clone(),
            email: self.email.clone(),
            full_name: self.full_name.clone(),
            role: self.role,
            is_active: self.is_active,
            status: self.status,
            permissions: clone_strings(&self.permissions),
            created_at: self.created_at,
            updated_at: self.updated_at,
            last_login: self.last_login,
            preferences: clone_opt_preferences(&self.preferences),
            profile: clone_opt_profile(&self.profile),
        };
        proof {
            assert(r@ =~= self@);
        }
        r
    }
}

impl Clone for Task {
    fn clone(&self) -> (r: Task)
        ensures
            r@ == self@,
    {
        let r = Task {
            id: self.id.clone(),
            title: self.title.clone(),
            description: self.description.clone(),
            status: self.status,
            priority: self.priority,
            tags: clone_strings(&self.tags),
            assigned_to: self.assigned_to.clone(),
            created_at: self.created_at,
            updated_at: self.updated_at,
            due_date: self.due_date,
            metrics: self.metrics,
            comments: clone_comments(&self.comments),
            attachments: clone_attachments(&self.attachments),
        };
        proof {
            assert(r@ =~= self@);
        }
        r
    }
}

impl Task {
    /// A task with every field empty; the starting point for building patch
    /// payloads.
    pub fn empty() -> (t: Task)
        ensures
            t@.id.len() == 0,
            t@.title.len() == 0,
            t@.description.len() == 0,
            t@.status == TaskStatus::Unspecified,
            t@.priority == TaskPriority::Unspecified,
            t@.tags.len() == 0,
            t@.assigned_to.len() == 0,
            t@.created_at is None,
            t@.updated_at is None,
            t@.due_date is None,
            t@.metrics is None,
            t@.comments.len() == 0,
            t@.attachments.len() == 0,
    {
        Task {
            id: String::new(),
            title: String::new(),
            description: String::new(),
            status: TaskStatus::Unspecified,
            priority: TaskPriority::Unspecified,
            tags: Vec::new(),
            assigned_to: String::new(),
            created_at: None,
            updated_at: None,
            due_date: None,
            metrics: None,
            comments: Vec::new(),
            attachments: Vec::new(),
        }
    }
}

impl User {
    /// The user record built for a signup, before the store assigns the
    /// identifier and the timestamps: active, no permissions, default
    /// preferences and an empty profile.
    pub fn signup(username: String, email: String, full_name: String, role: i32) -> (u: User)
        ensures
            u@.id.len() == 0,
            u@.username == username@,
            u@.email == email@,
            u@.full_name == full_name@,
            u@.role == role,
            u@.is_active == true,
            u@.status == UserStatus::Active,
            u@.permissions.len() == 0,
            u@.created_at is None,
            u@.updated_at is None,
            u@.last_login is None,
            u@.preferences == Some(PreferencesView {
                theme: "light"@,
                language: "en"@,
                timezone: "UTC"@,
                notifications_enabled: true,
                email_notifications: true,
            }),
            u@.profile == Some(ProfileView {
                avatar_url: Seq::<char>::empty(),
                bio: Seq::<char>::empty(),
                department: Seq::<char>::empty(),
                phone: Seq::<char>::empty(),
                location: Seq::<char>::empty(),
            }),
    {
        let u = User {
            id: String::new(),
            username,
            email,
            full_name,
            role,
            is_active: true,
            status: UserStatus::Active,
            permissions: Vec::new(),
            created_at: None,
            updated_at: None,
            last_login: None,
            preferences: Some(UserPreferences {
                theme: "light".to_owned(),
                language: "en".to_owned(),
                timezone: "UTC".to_owned(),
                notifications_enabled: true,
                email_notifications: true,
            }),
            profile: Some(UserProfile {
                avatar_url: String::new(),
                bio: String::new(),
                department: String::new(),
                phone: String::new(),
                location: String::new(),
            }),
        };
        proof {
            assert(u@.preferences =~= Some(PreferencesView {
                theme: "light"@,
                language: "en"@,
                timezone: "UTC"@,
                notifications_enabled: true,
                email_notifications: true,
            }));
            assert(u@.profile =~= Some(ProfileView {
                avatar_url: Seq::<char>::empty(),
                bio: Seq::<char>::empty(),
                department: Seq::<char>::empty(),
                phone: Seq::<char>::empty(),
                location: Seq::<char>::empty(),
            }));
        }
        u
    }
}

/// The fields of a request to create one task, as the streamed import and the
/// create call hand them to the store.
#[derive(Debug, PartialEq)]
pub struct CreateTaskRequest {
    pub title: String,
    pub description: String,
    pub priority: TaskPriority,
    pub tags: Vec<String>,
    pub assigned_to: String,
    pub due_date: Option<Timestamp>,
}

impl Clone for CreateTaskRequest {
    fn clone(&self) -> (r: CreateTaskRequest)
        ensures
            r@ == self@,
    {
        let r = CreateTaskRequest {
            title: self.title.clone(),
            description: self.description.clone(),
            priority: self.priority,
            tags: clone_strings(&self.tags),
            assigned_to: self.assigned_to.clone(),
            due_date: self.due_date,
        };
        proof {
            assert(r@ =~= self@);
        }
        r
    }
}

/// Ghost image of a `CreateTaskRequest`.
#[verifier::ext_equal]
pub ghost struct CreateTaskRequestView {
    pub title: Seq<char>,
    pub description: Seq<char>,
    pub priority: TaskPriority,
    pub tags: Seq<Seq<char>>,
    pub assigned_to: Seq<char>,
    pub due_date: Option<Timestamp>,
}

impl View for CreateTaskRequest {
    type V = CreateTaskRequestView;

    open spec fn view(&self) -> CreateTaskRequestView {
        CreateTaskRequestView {
            title: self.title@,
            description: self.description@,
            priority: self.priority,
            tags: self.tags.deep_view(),
            assigned_to: self.assigned_to@,
            due_date: self.due_date,
        }
    }
}

/// The task a create request describes, before the store assigns the
/// identifier and the timestamps: open, zeroed metrics, no comments and no
/// attachments.
pub open spec fn task_of_request(rv: CreateTaskRequestView) -> TaskView {
    TaskView {
        id: Seq::empty(),
        title: rv.title,
        description: rv.description,
        status: TaskStatus::Todo,
        priority: rv.priority,
        tags: rv.tags,
        assigned_to: rv.assigned_to,
        created_at: None,
        updated_at: None,
        due_date: rv.due_date,
        metrics: Some(TaskMetrics { estimated_hours: 0, actual_hours: 0, completion_percent: 0 }),
        comments: Seq::empty(),
        attachments: Seq::empty(),
    }
}

/// Builds the task a create request describes.
pub fn task_from_request(req: CreateTaskRequest) -> (t: Task)
    ensures
        t@ == task_of_request(req@),
{
    let t = Task {
        id: String::new(),
        title: req.title,
        description: req.description,
        status: TaskStatus::Todo,
        priority: req.priority,
        tags: req.tags,
        assigned_to: req.assigned_to,
        created_at: None,
        updated_at: None,
        due_date: req.due_date,
        metrics: Some(TaskMetrics::zeroed()),
        comments: Vec::new(),
        attachments: Vec::new(),
    };
    proof {
        assert(t@ =~= task_of_request(req@));
    }
    t
}

} // verus!
