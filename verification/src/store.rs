//! The entity store: the canonical user and task maps, the email, username
//! and user-to-tasks indexes, and every operation on them. All state lives in
//! association lists, so the listing order that pagination slices is part of
//! the model. Every mutating operation keeps the store well formed: keys stay
//! pairwise distinct, and every task identifier filed under a user names a
//! stored task assigned to that user.

use vstd::prelude::*;
use crate::alist::{
    al_contains, al_get, al_put, al_remove, al_unique, al_purge_value, al_get_ref,
    al_upsert, al_delete, al_purge_value_exec, pairs_view, lemma_al_put, lemma_al_remove,
    lemma_al_purge_value, seq_nodup,
};
use crate::alist::{seq_remove_all, lemma_seq_remove_all, vec_contains_str, vec_remove_str, al_index, lemma_al_index};
use crate::types::{User, UserView, Task, TaskView, TaskStatus, TaskPriority, Timestamp, StoreError, clone_strings, clone_comments, clone_attachments, UserPreferences, TaskAnalytics};
use crate::clock::now_timestamp;
use crate::strutil::{str_eq, string_to_chars};
use crate::alist::al_values;
use crate::pagination::{page_slice, clamp_size, token_page, parse_page_token};
use crate::search::{lower_of, lowercase, task_matches, user_matches, task_match_exec, user_match_exec};
use crate::ident::fresh_uuid;
use crate::codec::{
    senc_snapshot, sdec_snapshot, snap_header, enc_users, enc_tasks, enc_sindex, enc_utlists,
    dec_users, dec_tasks, dec_sindex, dec_utlists,
};
use crate::strutil::chars_to_string;

verus! {

/// Ghost image of the whole store: the five keyed collections, each in its
/// listing order.
#[verifier::ext_equal]
pub ghost struct StoreView {
    pub users: Seq<(Seq<char>, UserView)>,
    pub emails: Seq<(Seq<char>, Seq<char>)>,
    pub usernames: Seq<(Seq<char>, Seq<char>)>,
    pub tasks: Seq<(Seq<char>, TaskView)>,
    pub user_tasks: Seq<(Seq<char>, Seq<Seq<char>>)>,
}

/// The task identifiers filed under `u`; absent users have an empty list.
pub open spec fn list_of(ut: Seq<(Seq<char>, Seq<Seq<char>>)>, u: Seq<char>) -> Seq<Seq<char>> {
    match al_get(ut, u) {
        Some(l) => l,
        None => Seq::empty(),
    }
}

/// `tid`, filed under `u`, names a stored task assigned to `u`.
pub open spec fn ut_entry_ok(
    tasks: Seq<(Seq<char>, TaskView)>,
    u: Seq<char>,
    tid: Seq<char>,
) -> bool {
    match al_get(tasks, tid) {
        Some(t) => t.assigned_to == u,
        None => false,
    }
}

/// The user-to-tasks index is coherent: every filed identifier names a stored
/// task assigned to that user, and no list files an identifier twice.
pub open spec fn ut_ok(
    tasks: Seq<(Seq<char>, TaskView)>,
    ut: Seq<(Seq<char>, Seq<Seq<char>>)>,
) -> bool {
    &&& forall|u: Seq<char>, i: int|
        0 <= i < list_of(ut, u).len() ==> ut_entry_ok(tasks, u, #[trigger] list_of(ut, u)[i])
    &&& forall|u: Seq<char>| seq_nodup(#[trigger] list_of(ut, u))
    &&& list_of(ut, Seq::empty()).len() == 0
}

/// Every task entry is keyed by the identifier its record carries.
pub open spec fn tasks_keyed_by_id(s: Seq<(Seq<char>, TaskView)>) -> bool {
    forall|i: int| 0 <= i < s.len() ==> (#[trigger] s[i]).1.id == s[i].0
}

/// Every user entry is keyed by the identifier its record carries.
pub open spec fn users_keyed_by_id(s: Seq<(Seq<char>, UserView)>) -> bool {
    forall|i: int| 0 <= i < s.len() ==> (#[trigger] s[i]).1.id == s[i].0
}

impl StoreView {
    /// The store with nothing in it.
    pub open spec fn empty() -> StoreView {
        StoreView {
            users: Seq::empty(),
            emails: Seq::empty(),
            usernames: Seq::empty(),
            tasks: Seq::empty(),
            user_tasks: Seq::empty(),
        }
    }

    /// Well-formedness: distinct keys everywhere, coherent user-to-tasks
    /// index.
    pub open spec fn wf(self) -> bool {
        &&& al_unique(self.users)
        &&& al_unique(self.emails)
        &&& al_unique(self.usernames)
        &&& al_unique(self.tasks)
        &&& al_unique(self.user_tasks)
        &&& users_keyed_by_id(self.users)
        &&& tasks_keyed_by_id(self.tasks)
        &&& ut_ok(self.tasks, self.user_tasks)
    }
}

/// `email` is taken: the email index binds it to a stored user.
pub open spec fn user_email_taken(v: StoreView, email: Seq<char>) -> bool {
    match al_get(v.emails, email) {
        Some(id) => al_contains(v.users, id),
        None => false,
    }
}

/// The record actually stored for a created user: the fresh identifier and
/// the creation timestamps, everything else as handed in.
pub open spec fn stamped_user(u: UserView, id: Seq<char>, now: Timestamp) -> UserView {
    UserView { id: id, created_at: Some(now), updated_at: Some(now), ..u }
}

/// What creating `u` does to the store: the user under its identifier, both
/// secondary index entries, and an empty task list.
pub open spec fn insert_user_view(v: StoreView, u: UserView) -> StoreView {
    StoreView {
        users: al_put(v.users, u.id, u),
        emails: al_put(v.emails, u.email, u.id),
        usernames: al_put(v.usernames, u.username, u.id),
        user_tasks: al_put(v.user_tasks, u.id, Seq::empty()),
        tasks: v.tasks,
    }
}

/// Creating a user keeps the store well formed.
pub proof fn lemma_insert_user_wf(v: StoreView, u: UserView)
    requires
        v.wf(),
    ensures
        insert_user_view(v, u).wf(),
{
    let w = insert_user_view(v, u);
    lemma_al_put(v.users, u.id, u);
    lemma_al_put(v.emails, u.email, u.id);
    lemma_al_put(v.usernames, u.username, u.id);
    lemma_al_put(v.user_tasks, u.id, Seq::<Seq<char>>::empty());
    assert forall|x: Seq<char>, i: int| 0 <= i < list_of(w.user_tasks, x).len()
        implies ut_entry_ok(w.tasks, x, #[trigger] list_of(w.user_tasks, x)[i]) by {
        if x == u.id {
            assert(list_of(w.user_tasks, x) =~= Seq::<Seq<char>>::empty());
        } else {
            assert(al_get(w.user_tasks, x) == al_get(v.user_tasks, x));
            assert(ut_entry_ok(v.tasks, x, list_of(v.user_tasks, x)[i]));
        }
    }
    assert forall|x: Seq<char>| seq_nodup(#[trigger] list_of(w.user_tasks, x)) by {
        if x == u.id {
            assert(list_of(w.user_tasks, x) =~= Seq::<Seq<char>>::empty());
        } else {
            assert(al_get(w.user_tasks, x) == al_get(v.user_tasks, x));
            assert(seq_nodup(list_of(v.user_tasks, x)));
        }
    }
}

/// The entity store, with its persistence configuration.
pub struct Storage {
    users: Vec<(String, User)>,
    users_by_email: Vec<(String, String)>,
    users_by_username: Vec<(String, String)>,
    tasks: Vec<(String, Task)>,
    user_tasks: Vec<(String, Vec<String>)>,
    persistence_path: Option<String>,
    auto_save: bool,
}

impl View for Storage {
    type V = StoreView;

    closed spec fn view(&self) -> StoreView {
        StoreView {
            users: pairs_view(self.users@),
            emails: pairs_view(self.users_by_email@),
            usernames: pairs_view(self.users_by_username@),
            tasks: pairs_view(self.tasks@),
            user_tasks: pairs_view(self.user_tasks@),
        }
    }
}

impl Storage {
    /// The store is well formed.
    pub open spec fn wf(&self) -> bool {
        self@.wf()
    }

    /// The configured snapshot path, if persistence is on.
    pub closed spec fn path_view(&self) -> Option<Seq<char>> {
        match self.persistence_path {
            Some(p) => Some(p@),
            None => None,
        }
    }

    /// Whether every mutation should be followed by a save.
    pub closed spec fn auto_save_on(&self) -> bool {
        self.auto_save
    }

    /// The persistence configuration is untouched.
    pub open spec fn same_config(&self, other: &Storage) -> bool {
        self.path_view() == other.path_view() && self.auto_save_on() == other.auto_save_on()
    }

    /// An empty store without persistence.
    pub fn new() -> (s: Storage)
        ensures
            s@ == StoreView::empty(),
            s.wf(),
            s.path_view() is None,
            !s.auto_save_on(),
    {
        let s = Storage {
            users: Vec::new(),
            users_by_email: Vec::new(),
            users_by_username: Vec::new(),
            tasks: Vec::new(),
            user_tasks: Vec::new(),
            persistence_path: None,
            auto_save: false,
        };
        proof {
            assert(s@ =~= StoreView::empty());
        }
        s
    }

    /// An empty store that callers persist at `path`, saving after every
    /// mutation when `auto_save` is set.
    pub fn with_persistence(path: String, auto_save: bool) -> (s: Storage)
        ensures
            s@ == StoreView::empty(),
            s.wf(),
            s.path_view() == Some(path@),
            s.auto_save_on() == auto_save,
    {
        let s = Storage {
            users: Vec::new(),
            users_by_email: Vec::new(),
            users_by_username: Vec::new(),
            tasks: Vec::new(),
            user_tasks: Vec::new(),
            persistence_path: Some(path),
            auto_save,
        };
        proof {
            assert(s@ =~= StoreView::empty());
        }
        s
    }

    /// The configured snapshot path, for the caller that performs the file
    /// work.
    pub fn persistence_path(&self) -> (r: Option<&String>)
        ensures
            match r {
                Some(p) => self.path_view() == Some(p@),
                None => self.path_view() is None,
            },
    {
        match &self.persistence_path {
            Some(p) => Some(p),
            None => None,
        }
    }

    /// Whether the caller should save after every mutation.
    pub fn auto_save_enabled(&self) -> (r: bool)
        ensures
            r == self.auto_save_on(),
    {
        self.auto_save
    }

    /// Creates a user under the given fresh identifier, stamping the creation
    /// timestamps. Fails with `AlreadyExists`, leaving the store unchanged,
    /// exactly when the email is already bound to a stored user; the supplied
    /// identifier field of `user` is ignored.
    pub fn create_user_with_id(&mut self, user: User, id: String, now: Timestamp) -> (r: Result<
        User,
        StoreError,
    >)
        requires
            old(self).wf(),
        ensures
            final(self).wf(),
            final(self).same_config(old(self)),
            match r {
                Ok(u) => {
                    &&& !user_email_taken(old(self)@, user@.email)
                    &&& u@ == stamped_user(user@, id@, now)
                    &&& final(self)@ == insert_user_view(old(self)@, stamped_user(user@, id@, now))
                },
                Err(e) => {
                    &&& e == StoreError::AlreadyExists
                    &&& user_email_taken(old(self)@, user@.email)
                    &&& final(self)@ == old(self)@
                },
            },
    {
        let taken: bool = match al_get_ref(&self.users_by_email, user.email.as_str()) {
            Some(uid) => al_get_ref(&self.users, uid.as_str()).is_some(),
            None => false,
        };
        if taken {
            return Err(StoreError::AlreadyExists);
        }
        let ghost v = self@;
        let mut u = user;
        u.id = id.clone();
        u.created_at = Some(now);
        u.updated_at = Some(now);
        let ghost uv = u@;
        proof {
            assert(uv =~= stamped_user(user@, id@, now));
        }
        let stored = u.clone();
        self.insert_user(stored);
        Ok(u)
    }

    /// Files `user` under its identifier with both index entries and an
    /// empty task list, unconditionally.
    fn insert_user(&mut self, user: User)
        requires
            old(self).wf(),
        ensures
            final(self).wf(),
            final(self).same_config(old(self)),
            final(self)@ == insert_user_view(old(self)@, user@),
    {
        let ghost v = self@;
        let ghost uv = user@;
        let id = user.id.clone();
        let email_key = user.email.clone();
        let username_key = user.username.clone();
        al_upsert(&mut self.users, id.clone(), user);
        al_upsert(&mut self.users_by_email, email_key, id.clone());
        al_upsert(&mut self.users_by_username, username_key, id.clone());
        let empty_list: Vec<String> = Vec::new();
        proof {
            assert(empty_list.deep_view() =~= Seq::<Seq<char>>::empty());
        }
        al_upsert(&mut self.user_tasks, id, empty_list);
        proof {
            assert(self@ =~= insert_user_view(v, uv));
            lemma_insert_user_wf(v, uv);
        }
    }

    /// The stored user under `user_id`, as a copy.
    pub fn get_user(&self, user_id: &str) -> (r: Option<User>)
        requires
            self.wf(),
        ensures
            match r {
                Some(u) => al_get(self@.users, user_id@) == Some(u@),
                None => al_get(self@.users, user_id@) is None,
            },
    {
        match al_get_ref(&self.users, user_id) {
            Some(u) => Some(u.clone()),
            None => None,
        }
    }

    /// The stored user the email index binds `email` to, as a copy.
    pub fn get_user_by_email(&self, email: &str) -> (r: Option<User>)
        requires
            self.wf(),
        ensures
            match r {
                Some(u) => {
                    &&& user_email_taken(self@, email@)
                    &&& (al_get(self@.emails, email@) matches Some(id) && al_get(self@.users, id)
                        == Some(u@))
                },
                None => !user_email_taken(self@, email@),
            },
    {
        match al_get_ref(&self.users_by_email, email) {
            Some(uid) => match al_get_ref(&self.users, uid.as_str()) {
                Some(u) => Some(u.clone()),
                None => None,
            },
            None => None,
        }
    }

    /// The stored user the username index binds `username` to, as a copy.
    pub fn get_user_by_username(&self, username: &str) -> (r: Option<User>)
        requires
            self.wf(),
        ensures
            match r {
                Some(u) => al_get(self@.usernames, username@) matches Some(id) && al_get(
                    self@.users,
                    id,
                ) == Some(u@),
                None => match al_get(self@.usernames, username@) {
                    Some(id) => al_get(self@.users, id) is None,
                    None => true,
                },
            },
    {
        match al_get_ref(&self.users_by_username, username) {
            Some(uid) => match al_get_ref(&self.users, uid.as_str()) {
                Some(u) => Some(u.clone()),
                None => None,
            },
            None => None,
        }
    }

    /// Full replacement of the user under `user.id`: an upsert with no
    /// existence check and no index maintenance.
    pub fn update_user(&mut self, user: User)
        requires
            old(self).wf(),
        ensures
            final(self).wf(),
            final(self).same_config(old(self)),
            final(self)@ == (StoreView { users: al_put(old(self)@.users, user@.id, user@), ..old(
                self,
            )@ }),
    {
        let ghost v = self@;
        let key = user.id.clone();
        let ghost uv = user@;
        al_upsert(&mut self.users, key, user);
        proof {
            assert(self@ =~= (StoreView { users: al_put(v.users, uv.id, uv), ..v }));
            lemma_al_put(v.users, uv.id, uv);
        }
    }

    /// Deletes the user under `user_id`: the primary record, every email and
    /// username index entry bound to it, and its task list all go at once;
    /// stored tasks still assigned to it are left alone. Reports whether
    /// anything was removed.
    pub fn delete_user(&mut self, user_id: &str) -> (found: bool)
        requires
            old(self).wf(),
        ensures
            final(self).wf(),
            final(self).same_config(old(self)),
            found == al_contains(old(self)@.users, user_id@),
            found ==> final(self)@ == (StoreView {
                users: al_remove(old(self)@.users, user_id@),
                emails: al_purge_value(old(self)@.emails, user_id@),
                usernames: al_purge_value(old(self)@.usernames, user_id@),
                user_tasks: al_remove(old(self)@.user_tasks, user_id@),
                tasks: old(self)@.tasks,
            }),
            !found ==> final(self)@ == old(self)@,
            // afterwards no part of the store references the identifier
            !al_contains(final(self)@.users, user_id@),
            found ==> !al_contains(final(self)@.user_tasks, user_id@),
            found ==> forall|i: int| 0 <= i < final(self)@.emails.len()
                ==> (#[trigger] final(self)@.emails[i]).1 != user_id@,
            found ==> forall|i: int| 0 <= i < final(self)@.usernames.len()
                ==> (#[trigger] final(self)@.usernames[i]).1 != user_id@,
    {
        let ghost v = self@;
        match al_delete(&mut self.users, user_id) {
            Some(_removed) => {
                al_purge_value_exec(&mut self.users_by_email, user_id);
                al_purge_value_exec(&mut self.users_by_username, user_id);
                let _ = al_delete(&mut self.user_tasks, user_id);
                proof {
                    let w = self@;
                    assert(w =~= (StoreView {
                        users: al_remove(v.users, user_id@),
                        emails: al_purge_value(v.emails, user_id@),
                        usernames: al_purge_value(v.usernames, user_id@),
                        user_tasks: al_remove(v.user_tasks, user_id@),
                        tasks: v.tasks,
                    }));
                    lemma_al_remove(v.users, user_id@);
                    lemma_al_purge_value(v.emails, user_id@);
                    lemma_al_purge_value(v.usernames, user_id@);
                    lemma_al_remove(v.user_tasks, user_id@);
                    assert forall|x: Seq<char>, i: int| 0 <= i < list_of(w.user_tasks, x).len()
                        implies ut_entry_ok(w.tasks, x, #[trigger] list_of(w.user_tasks, x)[i]) by {
                        if x == user_id@ {
                            assert(list_of(w.user_tasks, x) =~= Seq::<Seq<char>>::empty());
                        } else {
                            assert(al_get(w.user_tasks, x) == al_get(v.user_tasks, x));
                            assert(ut_entry_ok(v.tasks, x, list_of(v.user_tasks, x)[i]));
                        }
                    }
                    assert forall|x: Seq<char>| seq_nodup(#[trigger] list_of(w.user_tasks, x)) by {
                        if x == user_id@ {
                            assert(list_of(w.user_tasks, x) =~= Seq::<Seq<char>>::empty());
                        } else {
                            assert(al_get(w.user_tasks, x) == al_get(v.user_tasks, x));
                            assert(seq_nodup(list_of(v.user_tasks, x)));
                        }
                    }
                }
                true
            },
            None => false,
        }
    }

    /// How many users are stored.
    pub fn count_users(&self) -> (r: usize)
        ensures
            r == self@.users.len(),
    {
        self.users.len()
    }

    /// Looks the user up by email and records a login at `now`; the stored
    /// record and the returned copy both carry the new last-login time.
    pub fn record_login(&mut self, email: &str, now: Timestamp) -> (r: Option<User>)
        requires
            old(self).wf(),
        ensures
            final(self).wf(),
            final(self).same_config(old(self)),
            match r {
                Some(u) => {
                    &&& user_email_taken(old(self)@, email@)
                    &&& (al_get(old(self)@.emails, email@) matches Some(id) && al_get(
                        old(self)@.users,
                        id,
                    ) matches Some(stored) && u@ == (UserView { last_login: Some(now), ..stored })
                        && final(self)@ == (StoreView {
                        users: al_put(old(self)@.users, stored.id, u@),
                        ..old(self)@
                    }))
                },
                None => {
                    &&& !user_email_taken(old(self)@, email@)
                    &&& final(self)@ == old(self)@
                },
            },
    {
        match self.get_user_by_email(email) {
            Some(mut u) => {
                u.last_login = Some(now);
                let copy = u.clone();
                self.update_user(u);
                Some(copy)
            },
            None => None,
        }
    }
}


/// The record actually stored for a created task: the fresh identifier and
/// the creation timestamps, everything else as handed in.
pub open spec fn stamped_task(t: TaskView, id: Seq<char>, now: Timestamp) -> TaskView {
    TaskView { id: id, created_at: Some(now), updated_at: Some(now), ..t }
}

/// Who the stored task under `t.id` is assigned to before a replacement;
/// empty when there is no such task or it is unassigned.
pub open spec fn old_assignee_of(v: StoreView, t: TaskView) -> Seq<char> {
    match al_get(v.tasks, t.id) {
        Some(ot) => ot.assigned_to,
        None => Seq::empty(),
    }
}

/// What storing `t` under its identifier does: the task map gets `t`, and
/// the user-to-tasks index is kept in lock step — the identifier leaves the
/// previous assignee's list when the assignment changes, and is filed under
/// the new assignee when there is one.
pub open spec fn put_task_view(v: StoreView, t: TaskView) -> StoreView {
    let old_a = old_assignee_of(v, t);
    let ut1 = if old_a.len() > 0 && old_a != t.assigned_to {
        al_put(v.user_tasks, old_a, seq_remove_all(list_of(v.user_tasks, old_a), t.id))
    } else {
        v.user_tasks
    };
    let l = list_of(ut1, t.assigned_to);
    let ut2 = if t.assigned_to.len() > 0 && !l.contains(t.id) {
        al_put(ut1, t.assigned_to, l.push(t.id))
    } else {
        ut1
    };
    StoreView { tasks: al_put(v.tasks, t.id, t), user_tasks: ut2, ..v }
}

/// Storing a task keeps the store well formed, binds the identifier to the
/// task, and touches no other task.
pub proof fn lemma_put_task(v: StoreView, t: TaskView)
    requires
        v.wf(),
    ensures
        put_task_view(v, t).wf(),
        al_get(put_task_view(v, t).tasks, t.id) == Some(t),
        forall|k: Seq<char>| k != t.id ==> al_get(put_task_view(v, t).tasks, k) == al_get(
            v.tasks,
            k,
        ),
        forall|k: Seq<char>|
            al_contains(put_task_view(v, t).tasks, k) == (al_contains(v.tasks, k) || k == t.id),
        put_task_view(v, t).tasks.len() == if al_contains(v.tasks, t.id) {
            v.tasks.len() as int
        } else {
            v.tasks.len() + 1 as int
        },
        t.assigned_to.len() > 0 ==> list_of(put_task_view(v, t).user_tasks, t.assigned_to)
            .contains(t.id),
{
    let w = put_task_view(v, t);
    let old_a = old_assignee_of(v, t);
    lemma_al_put(v.tasks, t.id, t);
    let removed = old_a.len() > 0 && old_a != t.assigned_to;
    let rl = seq_remove_all(list_of(v.user_tasks, old_a), t.id);
    lemma_seq_remove_all(list_of(v.user_tasks, old_a), t.id);
    let ut1 = if removed {
        al_put(v.user_tasks, old_a, rl)
    } else {
        v.user_tasks
    };
    if removed {
        lemma_al_put(v.user_tasks, old_a, rl);
    }
    assert(al_unique(ut1));
    let l = list_of(ut1, t.assigned_to);
    let pushed = t.assigned_to.len() > 0 && !l.contains(t.id);
    let ut2 = if pushed {
        al_put(ut1, t.assigned_to, l.push(t.id))
    } else {
        ut1
    };
    if pushed {
        lemma_al_put(ut1, t.assigned_to, l.push(t.id));
    }
    assert(w.user_tasks == ut2);
    if t.assigned_to.len() > 0 {
        if pushed {
            assert(list_of(ut2, t.assigned_to) == l.push(t.id));
            assert(list_of(ut2, t.assigned_to)[l.len() as int] == t.id);
            assert(list_of(ut2, t.assigned_to).contains(t.id));
        } else {
            assert(list_of(ut2, t.assigned_to) == l);
            assert(l.contains(t.id));
        }
    }
    // the filed lists stay coherent against the new task map
    assert forall|x: Seq<char>, i: int| 0 <= i < list_of(ut2, x).len()
        implies ut_entry_ok(w.tasks, x, #[trigger] list_of(ut2, x)[i]) by {
        let e = list_of(ut2, x)[i];
        if pushed && x == t.assigned_to {
            assert(list_of(ut2, x) == l.push(t.id));
            if i < l.len() {
                assert(e == l[i]);
                if removed {
                    assert(t.assigned_to != old_a);
                    assert(al_get(ut1, x) == al_get(v.user_tasks, x));
                }
                assert(l == list_of(v.user_tasks, x));
                assert(ut_entry_ok(v.tasks, x, list_of(v.user_tasks, x)[i]));
                assert(e != t.id);
                assert(al_get(w.tasks, e) == al_get(v.tasks, e));
            } else {
                assert(e == t.id);
                assert(al_get(w.tasks, t.id) == Some(t));
            }
        } else {
            if pushed {
                assert(x != t.assigned_to);
                assert(al_get(ut2, x) == al_get(ut1, x));
            }
            assert(list_of(ut2, x) == list_of(ut1, x));
            if removed && x == old_a {
                assert(list_of(ut1, x) == rl);
                assert((rl[i]) != t.id && list_of(v.user_tasks, old_a).contains(rl[i]));
                let c = choose|c: int|
                    0 <= c < list_of(v.user_tasks, old_a).len() && list_of(v.user_tasks, old_a)[c]
                        == e;
                assert(ut_entry_ok(v.tasks, x, list_of(v.user_tasks, x)[c]));
                assert(al_get(w.tasks, e) == al_get(v.tasks, e));
            } else {
                if removed {
                    assert(x != old_a);
                    assert(al_get(ut1, x) == al_get(v.user_tasks, x));
                }
                assert(list_of(ut1, x) == list_of(v.user_tasks, x));
                assert(ut_entry_ok(v.tasks, x, list_of(v.user_tasks, x)[i]));
                if e == t.id {
                    // the old record of this very task is filed under `x`,
                    // so `x` is its old assignee
                    assert(al_get(v.tasks, t.id) matches Some(ot) && ot.assigned_to == x);
                    assert(old_a == x);
                    if removed {
                        assert(false);
                    } else if old_a.len() == 0 {
                        // nothing is filed under the empty identifier
                        assert(x =~= Seq::<char>::empty());
                        assert(list_of(v.user_tasks, Seq::empty()).len() == 0);
                        assert(false);
                    } else {
                        assert(old_a == t.assigned_to);
                        assert(al_get(w.tasks, t.id) == Some(t));
                    }
                } else {
                    assert(al_get(w.tasks, e) == al_get(v.tasks, e));
                }
            }
        }
    }
    assert forall|x: Seq<char>| seq_nodup(#[trigger] list_of(ut2, x)) by {
        if pushed && x == t.assigned_to {
            assert(list_of(ut2, x) == l.push(t.id));
            if removed {
                assert(al_get(ut1, x) == al_get(v.user_tasks, x));
            }
            assert(l == list_of(v.user_tasks, x));
            assert(seq_nodup(l));
            assert forall|a: int, b: int| #![trigger l.push(t.id)[a], l.push(t.id)[b]]
                0 <= a < b < l.push(t.id).len()
                implies l.push(t.id)[a] != l.push(t.id)[b] by {
                if b < l.len() {
                    assert(l[a] != l[b]);
                } else {
                    assert(l.push(t.id)[b] == t.id);
                    assert(l.push(t.id)[a] == l[a]);
                    assert(l.contains(l[a]) == true);
                    if l[a] == t.id {
                        assert(l.contains(t.id));
                    }
                }
            }
        } else {
            if pushed {
                assert(al_get(ut2, x) == al_get(ut1, x));
            }
            assert(list_of(ut2, x) == list_of(ut1, x));
            if removed && x == old_a {
                assert(list_of(ut1, x) == rl);
            } else {
                if removed {
                    assert(al_get(ut1, x) == al_get(v.user_tasks, x));
                }
                assert(list_of(ut1, x) == list_of(v.user_tasks, x));
                assert(seq_nodup(list_of(v.user_tasks, x)));
            }
        }
    }
    // nothing is ever filed under the empty identifier
    assert(list_of(ut2, Seq::empty()).len() == 0) by {
        if pushed {
            assert(al_get(ut2, Seq::empty()) == al_get(ut1, Seq::empty()));
        }
        if removed {
            assert(al_get(ut1, Seq::empty()) == al_get(v.user_tasks, Seq::empty()));
        }
        assert(list_of(ut2, Seq::empty()) == list_of(v.user_tasks, Seq::empty()));
    }
}

impl Storage {
    /// Full replacement of the task under `task.id`: an upsert with no
    /// existence check, restoring the user-to-tasks index in the same step
    /// when the assignment changes.
    pub fn update_task(&mut self, task: Task)
        requires
            old(self).wf(),
        ensures
            final(self).wf(),
            final(self).same_config(old(self)),
            final(self)@ == put_task_view(old(self)@, task@),
    {
        let ghost v = self@;
        let ghost tv = task@;
        let tid = task.id.clone();
        // leave the previous assignee's list when the assignment changes
        let old_assignee: Option<String> = match al_get_ref(&self.tasks, tid.as_str()) {
            Some(ot) => {
                if !ot.assigned_to.as_str().is_empty() && !str_eq(
                    ot.assigned_to.as_str(),
                    task.assigned_to.as_str(),
                ) {
                    Some(ot.assigned_to.clone())
                } else {
                    None
                }
            },
            None => None,
        };
        proof {
            let old_a = old_assignee_of(v, tv);
            let removed = old_a.len() > 0 && old_a != tv.assigned_to;
            assert(match old_assignee {
                Some(a) => removed && a@ == old_a,
                None => !removed,
            });
        }
        if let Some(a) = old_assignee {
            let mut lst: Vec<String> = match al_get_ref(&self.user_tasks, a.as_str()) {
                Some(l) => clone_strings(l),
                None => Vec::new(),
            };
            proof {
                if al_get(v.user_tasks, a@) is None {
                    assert(lst.deep_view() =~= list_of(v.user_tasks, a@));
                }
            }
            vec_remove_str(&mut lst, tid.as_str());
            al_upsert(&mut self.user_tasks, a, lst);
        }
        let ghost ut1 = self@.user_tasks;
        proof {
            let old_a = old_assignee_of(v, tv);
            let removed = old_a.len() > 0 && old_a != tv.assigned_to;
            assert(ut1 == if removed {
                al_put(v.user_tasks, old_a, seq_remove_all(list_of(v.user_tasks, old_a), tv.id))
            } else {
                v.user_tasks
            });
        }
        // file the identifier under the new assignee
        if !task.assigned_to.as_str().is_empty() {
            let a2 = task.assigned_to.clone();
            let to_push: Option<Vec<String>> = match al_get_ref(&self.user_tasks, a2.as_str()) {
                Some(l) => {
                    if vec_contains_str(l, tid.as_str()) {
                        None
                    } else {
                        Some(clone_strings(l))
                    }
                },
                None => Some(Vec::new()),
            };
            if let Some(mut l2) = to_push {
                proof {
                    if al_get(ut1, a2@) is None {
                        assert(l2.deep_view() =~= list_of(ut1, a2@));
                    }
                }
                l2.push(tid.clone());
                proof {
                    assert(l2.deep_view() =~= list_of(ut1, a2@).push(tv.id));
                }
                al_upsert(&mut self.user_tasks, a2, l2);
            }
        }
        al_upsert(&mut self.tasks, tid, task);
        proof {
            assert(self@ =~= put_task_view(v, tv));
            lemma_put_task(v, tv);
        }
    }

    /// Creates a task under the given fresh identifier, stamping the creation
    /// timestamps and filing it under its assignee; the supplied identifier
    /// field of `task` is ignored. Hands back the stored record.
    pub fn create_task_with_id(&mut self, task: Task, id: String, now: Timestamp) -> (t: Task)
        requires
            old(self).wf(),
        ensures
            final(self).wf(),
            final(self).same_config(old(self)),
            t@ == stamped_task(task@, id@, now),
            final(self)@ == put_task_view(old(self)@, stamped_task(task@, id@, now)),
            al_get(final(self)@.tasks, id@) == Some(t@),
            final(self)@.tasks.len() == if al_contains(old(self)@.tasks, id@) {
                old(self)@.tasks.len() as int
            } else {
                old(self)@.tasks.len() + 1 as int
            },
    {
        let ghost v = self@;
        let mut t = task;
        t.id = id;
        t.created_at = Some(now);
        t.updated_at = Some(now);
        proof {
            assert(t@ =~= stamped_task(task@, t@.id, now));
        }
        let copy = t.clone();
        self.update_task(t);
        proof {
            lemma_put_task(v, copy@);
        }
        copy
    }

    /// Creates a task under a freshly drawn identifier, stamped with the
    /// clock's reading; the supplied identifier field of `task` is ignored.
    /// Hands back the stored record, which carries the new identifier.
    pub fn create_task(&mut self, task: Task) -> (t: Task)
        requires
            old(self).wf(),
        ensures
            final(self).wf(),
            final(self).same_config(old(self)),
            t@.id.len() == 36,
            match t@.created_at {
                Some(now) => {
                    &&& t@ == stamped_task(task@, t@.id, now)
                    &&& final(self)@ == put_task_view(old(self)@, t@)
                    &&& al_get(final(self)@.tasks, t@.id) == Some(t@)
                    &&& final(self)@.tasks.len() == if al_contains(old(self)@.tasks, t@.id) {
                        old(self)@.tasks.len() as int
                    } else {
                        old(self)@.tasks.len() + 1 as int
                    }
                },
                None => false,
            },
    {
        let id = fresh_uuid();
        let now = now_timestamp();
        self.create_task_with_id(task, id, now)
    }

    /// The stored task under `task_id`, as a copy.
    pub fn get_task(&self, task_id: &str) -> (r: Option<Task>)
        requires
            self.wf(),
        ensures
            match r {
                Some(t) => al_get(self@.tasks, task_id@) == Some(t@),
                None => al_get(self@.tasks, task_id@) is None,
            },
    {
        match al_get_ref(&self.tasks, task_id) {
            Some(t) => Some(t.clone()),
            None => None,
        }
    }

    /// Deletes the task under `task_id`, unfiling it from its assignee's
    /// list in the same step. Reports whether anything was removed; deleting
    /// again is a no-op.
    pub fn delete_task(&mut self, task_id: &str) -> (found: bool)
        requires
            old(self).wf(),
        ensures
            final(self).wf(),
            final(self).same_config(old(self)),
            found == al_contains(old(self)@.tasks, task_id@),
            !found ==> final(self)@ == old(self)@,
            found ==> (al_get(old(self)@.tasks, task_id@) matches Some(t) && final(self)@ == (
            StoreView {
                tasks: al_remove(old(self)@.tasks, task_id@),
                user_tasks: if t.assigned_to.len() > 0 {
                    al_put(
                        old(self)@.user_tasks,
                        t.assigned_to,
                        seq_remove_all(list_of(old(self)@.user_tasks, t.assigned_to), task_id@),
                    )
                } else {
                    old(self)@.user_tasks
                },
                ..old(self)@
            })),
            // afterwards no list files the identifier
            forall|u: Seq<char>| !(#[trigger] list_of(final(self)@.user_tasks, u)).contains(
                task_id@,
            ),
            !al_contains(final(self)@.tasks, task_id@),
    {
        let ghost v = self@;
        match al_delete(&mut self.tasks, task_id) {
            Some(t) => {
                proof {
                    lemma_al_remove(v.tasks, task_id@);
                }
                if !t.assigned_to.as_str().is_empty() {
                    let mut lst: Vec<String> = match al_get_ref(
                        &self.user_tasks,
                        t.assigned_to.as_str(),
                    ) {
                        Some(l) => clone_strings(l),
                        None => Vec::new(),
                    };
                    proof {
                        if al_get(v.user_tasks, t@.assigned_to) is None {
                            assert(lst.deep_view() =~= list_of(v.user_tasks, t@.assigned_to));
                        }
                    }
                    vec_remove_str(&mut lst, task_id);
                    al_upsert(&mut self.user_tasks, t.assigned_to.clone(), lst);
                }
                proof {
                    lemma_delete_task(v, task_id@);
                    let t0 = al_get(v.tasks, task_id@)->Some_0;
                    assert(t@ == t0);
                    assert(self@ =~= delete_task_view(v, task_id@));
                }
                true
            },
            None => {
                proof {
                    assert forall|u: Seq<char>| !(#[trigger] list_of(
                        self@.user_tasks,
                        u,
                    )).contains(task_id@) by {
                        if list_of(v.user_tasks, u).contains(task_id@) {
                            let i = choose|i: int|
                                0 <= i < list_of(v.user_tasks, u).len() && list_of(
                                    v.user_tasks,
                                    u,
                                )[i] == task_id@;
                            assert(ut_entry_ok(v.tasks, u, list_of(v.user_tasks, u)[i]));
                        }
                    }
                }
                false
            },
        }
    }

    /// How many tasks are stored.
    pub fn count_tasks(&self) -> (r: usize)
        ensures
            r == self@.tasks.len(),
    {
        self.tasks.len()
    }
}

/// What deleting the task under `tid` does: it leaves the task map, and its
/// assignee's list, in one step.
pub open spec fn delete_task_view(v: StoreView, tid: Seq<char>) -> StoreView {
    match al_get(v.tasks, tid) {
        Some(t) => StoreView {
            tasks: al_remove(v.tasks, tid),
            user_tasks: if t.assigned_to.len() > 0 {
                al_put(v.user_tasks, t.assigned_to, seq_remove_all(list_of(v.user_tasks, t.assigned_to), tid))
            } else {
                v.user_tasks
            },
            ..v
        },
        None => v,
    }
}

/// Deleting a task keeps the store well formed and leaves no list filing the
/// identifier.
pub proof fn lemma_delete_task(v: StoreView, tid: Seq<char>)
    requires
        v.wf(),
    ensures
        delete_task_view(v, tid).wf(),
        !al_contains(delete_task_view(v, tid).tasks, tid),
        forall|u: Seq<char>| !(#[trigger] list_of(delete_task_view(v, tid).user_tasks, u))
            .contains(tid),
        forall|k: Seq<char>| k != tid ==> al_get(delete_task_view(v, tid).tasks, k) == al_get(
            v.tasks,
            k,
        ),
{
    let w = delete_task_view(v, tid);
    lemma_al_remove(v.tasks, tid);
    match al_get(v.tasks, tid) {
        Some(t) => {
            let a = t.assigned_to;
            let rl = seq_remove_all(list_of(v.user_tasks, a), tid);
            lemma_seq_remove_all(list_of(v.user_tasks, a), tid);
            let touched = a.len() > 0;
            if touched {
                lemma_al_put(v.user_tasks, a, rl);
            }
            assert(al_unique(w.user_tasks));
            assert forall|x: Seq<char>, i: int| 0 <= i < list_of(w.user_tasks, x).len()
                implies ut_entry_ok(w.tasks, x, #[trigger] list_of(w.user_tasks, x)[i]) by {
                let e = list_of(w.user_tasks, x)[i];
                if touched && x == a {
                    assert(list_of(w.user_tasks, x) == rl);
                    assert((rl[i]) != tid && list_of(v.user_tasks, a).contains(rl[i]));
                    let c = choose|c: int|
                        0 <= c < list_of(v.user_tasks, a).len() && list_of(v.user_tasks, a)[c]
                            == e;
                    assert(ut_entry_ok(v.tasks, x, list_of(v.user_tasks, x)[c]));
                    assert(al_get(w.tasks, e) == al_get(v.tasks, e));
                } else {
                    if touched {
                        assert(al_get(w.user_tasks, x) == al_get(v.user_tasks, x));
                    }
                    assert(list_of(w.user_tasks, x) == list_of(v.user_tasks, x));
                    assert(ut_entry_ok(v.tasks, x, list_of(v.user_tasks, x)[i]));
                    if e == tid {
                        assert(al_get(v.tasks, tid) matches Some(ot) && ot.assigned_to == x);
                        assert(x == a);
                        if touched {
                            assert(false);
                        } else {
                            assert(x =~= Seq::<char>::empty());
                            assert(list_of(v.user_tasks, Seq::empty()).len() == 0);
                            assert(false);
                        }
                    } else {
                        assert(al_get(w.tasks, e) == al_get(v.tasks, e));
                    }
                }
            }
            assert forall|x: Seq<char>| seq_nodup(#[trigger] list_of(w.user_tasks, x)) by {
                if touched && x == a {
                    assert(list_of(w.user_tasks, x) == rl);
                } else {
                    if touched {
                        assert(al_get(w.user_tasks, x) == al_get(v.user_tasks, x));
                    }
                    assert(list_of(w.user_tasks, x) == list_of(v.user_tasks, x));
                    assert(seq_nodup(list_of(v.user_tasks, x)));
                }
            }
            assert(list_of(w.user_tasks, Seq::empty()).len() == 0) by {
                if touched {
                    assert(al_get(w.user_tasks, Seq::empty()) == al_get(
                        v.user_tasks,
                        Seq::empty(),
                    ));
                }
                assert(list_of(w.user_tasks, Seq::empty()) == list_of(v.user_tasks, Seq::empty()));
            }
            assert forall|u: Seq<char>| !(#[trigger] list_of(w.user_tasks, u)).contains(tid) by {
                if list_of(w.user_tasks, u).contains(tid) {
                    let i = choose|i: int|
                        0 <= i < list_of(w.user_tasks, u).len() && list_of(w.user_tasks, u)[i]
                            == tid;
                    if touched && u == a {
                        assert((rl[i]) != tid);
                    } else {
                        if touched {
                            assert(al_get(w.user_tasks, u) == al_get(v.user_tasks, u));
                        }
                        assert(list_of(w.user_tasks, u) == list_of(v.user_tasks, u));
                        assert(ut_entry_ok(v.tasks, u, list_of(v.user_tasks, u)[i]));
                        assert(u == a);
                        assert(u =~= Seq::<char>::empty());
                        assert(list_of(v.user_tasks, Seq::empty()).len() == 0);
                    }
                }
            }
        },
        None => {
            assert forall|u: Seq<char>| !(#[trigger] list_of(w.user_tasks, u)).contains(tid) by {
                if list_of(v.user_tasks, u).contains(tid) {
                    let i = choose|i: int|
                        0 <= i < list_of(v.user_tasks, u).len() && list_of(v.user_tasks, u)[i]
                            == tid;
                    assert(ut_entry_ok(v.tasks, u, list_of(v.user_tasks, u)[i]));
                }
            }
        },
    }
}


/// One masked field applied: the named field is copied from the patch, an
/// unknown name changes nothing.
pub open spec fn apply_field(t: TaskView, p: TaskView, name: Seq<char>) -> TaskView {
    if name == "title"@ {
        TaskView { title: p.title, ..t }
    } else if name == "description"@ {
        TaskView { description: p.description, ..t }
    } else if name == "status"@ {
        TaskView { status: p.status, ..t }
    } else if name == "priority"@ {
        TaskView { priority: p.priority, ..t }
    } else if name == "tags"@ {
        TaskView { tags: p.tags, ..t }
    } else if name == "assignedTo"@ {
        TaskView { assigned_to: p.assigned_to, ..t }
    } else if name == "due_date"@ {
        TaskView { due_date: p.due_date, ..t }
    } else if name == "metrics"@ {
        TaskView { metrics: p.metrics, ..t }
    } else if name == "comments"@ {
        TaskView { comments: p.comments, ..t }
    } else if name == "attachments"@ {
        TaskView { attachments: p.attachments, ..t }
    } else {
        t
    }
}

/// The masked fields applied in order.
pub open spec fn apply_mask_fields(t: TaskView, p: TaskView, mask: Seq<Seq<char>>) -> TaskView
    decreases mask.len(),
{
    if mask.len() == 0 {
        t
    } else {
        apply_field(apply_mask_fields(t, p, mask.drop_last()), p, mask.last())
    }
}

/// The stored result of a masked patch: the masked fields from the patch,
/// the update timestamp always stamped, everything else untouched.
pub open spec fn patched_task(t: TaskView, p: TaskView, mask: Seq<Seq<char>>, now: Timestamp) -> TaskView {
    TaskView { updated_at: Some(now), ..apply_mask_fields(t, p, mask) }
}

/// No mask ever changes the identifier or the creation timestamp, and the
/// update timestamp is governed by the final stamp alone.
pub proof fn lemma_apply_mask_fixed(t: TaskView, p: TaskView, mask: Seq<Seq<char>>)
    ensures
        apply_mask_fields(t, p, mask).id == t.id,
        apply_mask_fields(t, p, mask).created_at == t.created_at,
        apply_mask_fields(t, p, mask).updated_at == t.updated_at,
    decreases mask.len(),
{
    if mask.len() > 0 {
        lemma_apply_mask_fixed(t, p, mask.drop_last());
    }
}

impl Storage {
    /// Applies the patch fields named by `mask` onto the task under
    /// `task_id`, at time `now`: masked fields are copied from `patch`,
    /// unrecognized names are ignored, the update timestamp is always
    /// stamped, and the assignment index is restored in the same step. No
    /// reader ever observes a partially applied patch. Fails with `NotFound`,
    /// changing nothing, exactly when no task is stored under `task_id`.
    pub fn patch_task_at(&mut self, task_id: &str, patch: &Task, mask: &Vec<String>, now: Timestamp)
        -> (r: Result<Task, StoreError>)
        requires
            old(self).wf(),
        ensures
            final(self).wf(),
            final(self).same_config(old(self)),
            match r {
                Ok(t) => {
                    &&& al_contains(old(self)@.tasks, task_id@)
                    &&& (al_get(old(self)@.tasks, task_id@) matches Some(ot) && t@ == patched_task(
                        ot,
                        patch@,
                        mask.deep_view(),
                        now,
                    ) && final(self)@ == put_task_view(old(self)@, t@))
                },
                Err(e) => {
                    &&& e == StoreError::NotFound
                    &&& !al_contains(old(self)@.tasks, task_id@)
                    &&& final(self)@ == old(self)@
                },
            },
    {
        let ghost v = self@;
        let ghost pv = patch@;
        let ghost mv = mask.deep_view();
        let mut t = match al_get_ref(&self.tasks, task_id) {
            Some(t) => t.clone(),
            None => {
                return Err(StoreError::NotFound);
            },
        };
        let ghost ot = t@;
        let mut i: usize = 0;
        while i < mask.len()
            invariant
                0 <= i <= mask@.len(),
                mv == mask.deep_view(),
                mv.len() == mask@.len(),
                t@ == apply_mask_fields(ot, pv, mv.take(i as int)),
                patch@ == pv,
            decreases mask@.len() - i,
        {
            let ghost prev = t@;
            proof {
                assert(mv[i as int] == mask@[i as int]@);
                assert(mv.take(i + 1).drop_last() =~= mv.take(i as int));
                assert(mv.take(i + 1).last() == mv[i as int]);
            }
            let f = mask[i].as_str();
            if str_eq(f, "title") {
                t.title = patch.title.clone();
                proof {
                    assert(t@ =~= apply_field(prev, pv, f@));
                }
            } else if str_eq(f, "description") {
                t.description = patch.description.clone();
                proof {
                    assert(t@ =~= apply_field(prev, pv, f@));
                }
            } else if str_eq(f, "status") {
                t.status = patch.status;
                proof {
                    assert(t@ =~= apply_field(prev, pv, f@));
                }
            } else if str_eq(f, "priority") {
                t.priority = patch.priority;
                proof {
                    assert(t@ =~= apply_field(prev, pv, f@));
                }
            } else if str_eq(f, "tags") {
                t.tags = clone_strings(&patch.tags);
                proof {
                    assert(t@ =~= apply_field(prev, pv, f@));
                }
            } else if str_eq(f, "assignedTo") {
                t.assigned_to = patch.assigned_to.clone();
                proof {
                    assert(t@ =~= apply_field(prev, pv, f@));
                }
            } else if str_eq(f, "due_date") {
                t.due_date = patch.due_date;
                proof {
                    assert(t@ =~= apply_field(prev, pv, f@));
                }
            } else if str_eq(f, "metrics") {
                t.metrics = patch.metrics;
                proof {
                    assert(t@ =~= apply_field(prev, pv, f@));
                }
            } else if str_eq(f, "comments") {
                t.comments = clone_comments(&patch.comments);
                proof {
                    assert(t@ =~= apply_field(prev, pv, f@));
                }
            } else if str_eq(f, "attachments") {
                t.attachments = clone_attachments(&patch.attachments);
                proof {
                    assert(t@ =~= apply_field(prev, pv, f@));
                }
            } else {
                proof {
                    assert(t@ == apply_field(prev, pv, f@));
                }
            }
            i = i + 1;
        }
        proof {
            assert(mv.take(mv.len() as int) =~= mv);
        }
        t.updated_at = Some(now);
        proof {
            assert(t@ =~= patched_task(ot, pv, mv, now));
        }
        let copy = t.clone();
        self.update_task(t);
        Ok(copy)
    }

    /// A masked patch at the clock's reading; see `patch_task_at`.
    pub fn patch_task(&mut self, task_id: &str, patch: &Task, mask: &Vec<String>) -> (r: Result<
        Task,
        StoreError,
    >)
        requires
            old(self).wf(),
        ensures
            final(self).wf(),
            final(self).same_config(old(self)),
            match r {
                Ok(t) => {
                    &&& al_contains(old(self)@.tasks, task_id@)
                    &&& (al_get(old(self)@.tasks, task_id@) matches Some(ot)
                        && t@.updated_at matches Some(now) && t@ == patched_task(
                        ot,
                        patch@,
                        mask.deep_view(),
                        now,
                    ) && final(self)@ == put_task_view(old(self)@, t@))
                },
                Err(e) => {
                    &&& e == StoreError::NotFound
                    &&& !al_contains(old(self)@.tasks, task_id@)
                    &&& final(self)@ == old(self)@
                },
            },
    {
        let now = now_timestamp();
        self.patch_task_at(task_id, patch, mask, now)
    }
}


/// A task is overdue at `now`: it has a due date strictly before `now` and
/// is not done.
pub open spec fn is_overdue(t: TaskView, now_seconds: i64) -> bool {
    &&& t.due_date matches Some(d) && d.seconds < now_seconds
    &&& t.status != TaskStatus::Done
}

/// The tasks of `ts` with the given status, in order.
pub open spec fn tasks_with_status(ts: Seq<TaskView>, st: TaskStatus) -> Seq<TaskView>
    decreases ts.len(),
{
    if ts.len() == 0 {
        Seq::empty()
    } else {
        let r = tasks_with_status(ts.drop_last(), st);
        if ts.last().status == st {
            r.push(ts.last())
        } else {
            r
        }
    }
}

/// The tasks of `ts` with the given priority, in order.
pub open spec fn tasks_with_priority(ts: Seq<TaskView>, pr: TaskPriority) -> Seq<TaskView>
    decreases ts.len(),
{
    if ts.len() == 0 {
        Seq::empty()
    } else {
        let r = tasks_with_priority(ts.drop_last(), pr);
        if ts.last().priority == pr {
            r.push(ts.last())
        } else {
            r
        }
    }
}

/// The tasks of `ts` overdue at `now`, in order.
pub open spec fn overdue_in(ts: Seq<TaskView>, now_seconds: i64) -> Seq<TaskView>
    decreases ts.len(),
{
    if ts.len() == 0 {
        Seq::empty()
    } else {
        let r = overdue_in(ts.drop_last(), now_seconds);
        if is_overdue(ts.last(), now_seconds) {
            r.push(ts.last())
        } else {
            r
        }
    }
}

/// The tasks of `ts` matching the query, in order.
pub open spec fn tasks_matching(ts: Seq<TaskView>, q: Seq<char>) -> Seq<TaskView>
    decreases ts.len(),
{
    if ts.len() == 0 {
        Seq::empty()
    } else {
        let r = tasks_matching(ts.drop_last(), q);
        if task_matches(ts.last(), q) {
            r.push(ts.last())
        } else {
            r
        }
    }
}

/// The users of `us` matching the query, in order.
pub open spec fn users_matching(us: Seq<UserView>, q: Seq<char>) -> Seq<UserView>
    decreases us.len(),
{
    if us.len() == 0 {
        Seq::empty()
    } else {
        let r = users_matching(us.drop_last(), q);
        if user_matches(us.last(), q) {
            r.push(us.last())
        } else {
            r
        }
    }
}

/// Where page `page` of size `size` begins and ends in a listing of `len`
/// items, clamped to the listing.
proof fn lemma_page_bounds(page: int, size: int, len: int)
    requires
        size > 0,
        0 <= page,
        0 <= len,
    ensures
        page <= len / size ==> page * size <= len,
        page > len / size ==> page * size > len,
{
    vstd::arithmetic::div_mod::lemma_fundamental_div_mod(len, size);
    vstd::arithmetic::div_mod::lemma_mod_division_less_than_divisor(len, size);
    assert(page <= len / size ==> page * size <= len) by (nonlinear_arith)
        requires
            size > 0,
            len == size * (len / size) + len % size,
            0 <= len % size < size,
    ;
    assert(page > len / size ==> page * size > len) by (nonlinear_arith)
        requires
            size > 0,
            len == size * (len / size) + len % size,
            0 <= len % size < size,
    ;
}

/// The window of a task listing that one page shows, as copies.
fn task_window(v: &Vec<Task>, page: usize, size: usize) -> (r: Vec<Task>)
    ensures
        r.deep_view() == page_slice(v.deep_view(), page as nat, size as nat),
{
    let len = v.len();
    let ghost dv = v.deep_view();
    if size == 0 {
        proof {
            assert(page * 0 == 0) by (nonlinear_arith);
            assert(page_slice(dv, page as nat, 0) =~= Seq::<TaskView>::empty());
        }
        let r: Vec<Task> = Vec::new();
        proof {
            assert(r.deep_view() =~= Seq::<TaskView>::empty());
        }
        return r;
    }
    proof {
        lemma_page_bounds(page as int, size as int, len as int);
    }
    let start: usize = if page <= len / size {
        page * size
    } else {
        len
    };
    let end: usize = if size <= len - start {
        start + size
    } else {
        len
    };
    let mut r: Vec<Task> = Vec::new();
    let mut idx: usize = start;
    while idx < end
        invariant
            start <= idx <= end <= dv.len(),
            dv == v.deep_view(),
            dv.len() == v@.len(),
            r.deep_view() =~= dv.subrange(start as int, idx as int),
        decreases end - idx,
    {
        let ghost prev = r.deep_view();
        let x = v[idx].clone();
        proof {
            assert(x.deep_view() == dv[idx as int]);
        }
        r.push(x);
        proof {
            assert(r.deep_view() =~= prev.push(dv[idx as int]));
            assert(prev.push(dv[idx as int]) =~= dv.subrange(start as int, idx + 1));
        }
        idx = idx + 1;
    }
    proof {
        assert(r.deep_view() =~= page_slice(dv, page as nat, size as nat));
    }
    r
}

/// The window of a user listing that one page shows, as copies.
fn user_window(v: &Vec<User>, page: usize, size: usize) -> (r: Vec<User>)
    ensures
        r.deep_view() == page_slice(v.deep_view(), page as nat, size as nat),
{
    let len = v.len();
    let ghost dv = v.deep_view();
    if size == 0 {
        proof {
            assert(page * 0 == 0) by (nonlinear_arith);
            assert(page_slice(dv, page as nat, 0) =~= Seq::<UserView>::empty());
        }
        let r: Vec<User> = Vec::new();
        proof {
            assert(r.deep_view() =~= Seq::<UserView>::empty());
        }
        return r;
    }
    proof {
        lemma_page_bounds(page as int, size as int, len as int);
    }
    let start: usize = if page <= len / size {
        page * size
    } else {
        len
    };
    let end: usize = if size <= len - start {
        start + size
    } else {
        len
    };
    let mut r: Vec<User> = Vec::new();
    let mut idx: usize = start;
    while idx < end
        invariant
            start <= idx <= end <= dv.len(),
            dv == v.deep_view(),
            dv.len() == v@.len(),
            r.deep_view() =~= dv.subrange(start as int, idx as int),
        decreases end - idx,
    {
        let ghost prev = r.deep_view();
        let x = v[idx].clone();
        proof {
            assert(x.deep_view() == dv[idx as int]);
        }
        r.push(x);
        proof {
            assert(r.deep_view() =~= prev.push(dv[idx as int]));
            assert(prev.push(dv[idx as int]) =~= dv.subrange(start as int, idx + 1));
        }
        idx = idx + 1;
    }
    proof {
        assert(r.deep_view() =~= page_slice(dv, page as nat, size as nat));
    }
    r
}

impl Storage {
    /// All stored tasks, in listing order, as copies.
    fn all_tasks(&self) -> (r: Vec<Task>)
        ensures
            r.deep_view() == al_values(self@.tasks),
    {
        let mut r: Vec<Task> = Vec::new();
        let mut i: usize = 0;
        while i < self.tasks.len()
            invariant
                0 <= i <= self.tasks@.len(),
                r.deep_view() =~= al_values(pairs_view(self.tasks@)).take(i as int),
            decreases self.tasks@.len() - i,
        {
            let ghost prev = r.deep_view();
            let x = self.tasks[i].1.clone();
            proof {
                assert(x.deep_view() == al_values(pairs_view(self.tasks@))[i as int]);
            }
            r.push(x);
            proof {
                assert(r.deep_view() =~= prev.push(al_values(pairs_view(self.tasks@))[i as int]));
                assert(r.deep_view() =~= al_values(pairs_view(self.tasks@)).take(i + 1));
            }
            i = i + 1;
        }
        proof {
            assert(r.deep_view() =~= al_values(self@.tasks));
        }
        r
    }

    /// All stored users, in listing order, as copies.
    fn all_users(&self) -> (r: Vec<User>)
        ensures
            r.deep_view() == al_values(self@.users),
    {
        let mut r: Vec<User> = Vec::new();
        let mut i: usize = 0;
        while i < self.users.len()
            invariant
                0 <= i <= self.users@.len(),
                r.deep_view() =~= al_values(pairs_view(self.users@)).take(i as int),
            decreases self.users@.len() - i,
        {
            let ghost prev = r.deep_view();
            let x = self.users[i].1.clone();
            proof {
                assert(x.deep_view() == al_values(pairs_view(self.users@))[i as int]);
            }
            r.push(x);
            proof {
                assert(r.deep_view() =~= prev.push(al_values(pairs_view(self.users@))[i as int]));
                assert(r.deep_view() =~= al_values(pairs_view(self.users@)).take(i + 1));
            }
            i = i + 1;
        }
        proof {
            assert(r.deep_view() =~= al_values(self@.users));
        }
        r
    }

    /// The page of the task listing the token names, as copies.
    pub fn list_tasks(&self, page_size: i32, page_token: &str) -> (r: Vec<Task>)
        requires
            self.wf(),
        ensures
            r.deep_view() == page_slice(
                al_values(self@.tasks),
                token_page(page_token@),
                clamp_size(page_size),
            ),
    {
        let page = parse_page_token(page_token);
        let size: usize = if page_size <= 0 {
            0
        } else {
            page_size as usize
        };
        let all = self.all_tasks();
        task_window(&all, page, size)
    }

    /// The page of the user listing the token names, as copies.
    pub fn list_users(&self, page_size: i32, page_token: &str) -> (r: Vec<User>)
        requires
            self.wf(),
        ensures
            r.deep_view() == page_slice(
                al_values(self@.users),
                token_page(page_token@),
                clamp_size(page_size),
            ),
    {
        let page = parse_page_token(page_token);
        let size: usize = if page_size <= 0 {
            0
        } else {
            page_size as usize
        };
        let all = self.all_users();
        user_window(&all, page, size)
    }
}


/// The stored task under `tid`, for identifiers known to be filed.
pub open spec fn task_at(v: StoreView, tid: Seq<char>) -> TaskView {
    match al_get(v.tasks, tid) {
        Some(t) => t,
        None => vstd::pervasive::arbitrary(),
    }
}

/// The stored tasks under a run of identifiers, in that order.
pub open spec fn tasks_of_ids(v: StoreView, ids: Seq<Seq<char>>) -> Seq<TaskView> {
    ids.map_values(|tid: Seq<char>| task_at(v, tid))
}

impl Storage {
    /// How many tasks are stored with the given status.
    pub fn count_tasks_by_status(&self, status: TaskStatus) -> (r: usize)
        ensures
            r == tasks_with_status(al_values(self@.tasks), status).len(),
    {
        let ghost vals = al_values(pairs_view(self.tasks@));
        let mut c: usize = 0;
        let mut i: usize = 0;
        while i < self.tasks.len()
            invariant
                0 <= i <= self.tasks@.len(),
                vals == al_values(pairs_view(self.tasks@)),
                vals.len() == self.tasks@.len(),
                c == tasks_with_status(vals.take(i as int), status).len(),
                c <= i,
            decreases self.tasks@.len() - i,
        {
            proof {
                assert(vals[i as int] == self.tasks@[i as int].1@);
                assert(vals.take(i + 1).drop_last() =~= vals.take(i as int));
                assert(vals.take(i + 1).last() == vals[i as int]);
            }
            if self.tasks[i].1.status == status {
                c = c + 1;
            }
            i = i + 1;
        }
        proof {
            assert(vals.take(vals.len() as int) =~= vals);
        }
        c
    }

    /// How many tasks are stored with the given priority.
    pub fn count_tasks_by_priority(&self, priority: TaskPriority) -> (r: usize)
        ensures
            r == tasks_with_priority(al_values(self@.tasks), priority).len(),
    {
        let ghost vals = al_values(pairs_view(self.tasks@));
        let mut c: usize = 0;
        let mut i: usize = 0;
        while i < self.tasks.len()
            invariant
                0 <= i <= self.tasks@.len(),
                vals == al_values(pairs_view(self.tasks@)),
                vals.len() == self.tasks@.len(),
                c == tasks_with_priority(vals.take(i as int), priority).len(),
                c <= i,
            decreases self.tasks@.len() - i,
        {
            proof {
                assert(vals[i as int] == self.tasks@[i as int].1@);
                assert(vals.take(i + 1).drop_last() =~= vals.take(i as int));
                assert(vals.take(i + 1).last() == vals[i as int]);
            }
            if self.tasks[i].1.priority == priority {
                c = c + 1;
            }
            i = i + 1;
        }
        proof {
            assert(vals.take(vals.len() as int) =~= vals);
        }
        c
    }

    /// How many tasks are overdue at the given time: due strictly before it
    /// and not done.
    pub fn count_overdue_tasks_at(&self, now_seconds: i64) -> (r: usize)
        ensures
            r == overdue_in(al_values(self@.tasks), now_seconds).len(),
    {
        let ghost vals = al_values(pairs_view(self.tasks@));
        let mut c: usize = 0;
        let mut i: usize = 0;
        while i < self.tasks.len()
            invariant
                0 <= i <= self.tasks@.len(),
                vals == al_values(pairs_view(self.tasks@)),
                vals.len() == self.tasks@.len(),
                c == overdue_in(vals.take(i as int), now_seconds).len(),
                c <= i,
            decreases self.tasks@.len() - i,
        {
            proof {
                assert(vals[i as int] == self.tasks@[i as int].1@);
                assert(vals.take(i + 1).drop_last() =~= vals.take(i as int));
                assert(vals.take(i + 1).last() == vals[i as int]);
            }
            let t = &self.tasks[i].1;
            let over = match t.due_date {
                Some(d) => d.seconds < now_seconds && !(t.status == TaskStatus::Done),
                None => false,
            };
            if over {
                c = c + 1;
            }
            i = i + 1;
        }
        proof {
            assert(vals.take(vals.len() as int) =~= vals);
        }
        c
    }

    /// How many tasks are overdue at the clock's reading.
    pub fn count_overdue_tasks(&self) -> (r: usize)
        ensures
            exists|sec: i64| sec >= 0 && r == overdue_in(al_values(self@.tasks), sec).len(),
    {
        let now = now_timestamp();
        let r = self.count_overdue_tasks_at(now.seconds);
        proof {
            assert(now.seconds >= 0 && r == overdue_in(
                al_values(self@.tasks),
                now.seconds,
            ).len());
        }
        r
    }

    /// How many task identifiers are filed under `user_id`.
    pub fn count_user_tasks(&self, user_id: &str) -> (r: usize)
        requires
            self.wf(),
        ensures
            r == list_of(self@.user_tasks, user_id@).len(),
    {
        match al_get_ref(&self.user_tasks, user_id) {
            Some(l) => l.len(),
            None => 0,
        }
    }

    /// The page of the tasks with the given status, as copies.
    pub fn get_tasks_by_status(&self, status: TaskStatus, page_size: i32, page_token: &str) -> (r:
        Vec<Task>)
        requires
            self.wf(),
        ensures
            r.deep_view() == page_slice(
                tasks_with_status(al_values(self@.tasks), status),
                token_page(page_token@),
                clamp_size(page_size),
            ),
    {
        let ghost vals = al_values(pairs_view(self.tasks@));
        let mut acc: Vec<Task> = Vec::new();
        let mut i: usize = 0;
        while i < self.tasks.len()
            invariant
                0 <= i <= self.tasks@.len(),
                vals == al_values(pairs_view(self.tasks@)),
                vals.len() == self.tasks@.len(),
                acc.deep_view() == tasks_with_status(vals.take(i as int), status),
            decreases self.tasks@.len() - i,
        {
            let ghost prev = acc.deep_view();
            proof {
                assert(vals[i as int] == self.tasks@[i as int].1@);
                assert(vals.take(i + 1).drop_last() =~= vals.take(i as int));
                assert(vals.take(i + 1).last() == vals[i as int]);
            }
            if self.tasks[i].1.status == status {
                let x = self.tasks[i].1.clone();
                acc.push(x);
                proof {
                    assert(acc.deep_view() =~= prev.push(vals[i as int]));
                }
            }
            i = i + 1;
        }
        proof {
            assert(vals.take(vals.len() as int) =~= vals);
        }
        let page = parse_page_token(page_token);
        let size: usize = if page_size <= 0 {
            0
        } else {
            page_size as usize
        };
        task_window(&acc, page, size)
    }

    /// The page of the tasks with the given priority, as copies.
    pub fn get_tasks_by_priority(
        &self,
        priority: TaskPriority,
        page_size: i32,
        page_token: &str,
    ) -> (r: Vec<Task>)
        requires
            self.wf(),
        ensures
            r.deep_view() == page_slice(
                tasks_with_priority(al_values(self@.tasks), priority),
                token_page(page_token@),
                clamp_size(page_size),
            ),
    {
        let ghost vals = al_values(pairs_view(self.tasks@));
        let mut acc: Vec<Task> = Vec::new();
        let mut i: usize = 0;
        while i < self.tasks.len()
            invariant
                0 <= i <= self.tasks@.len(),
                vals == al_values(pairs_view(self.tasks@)),
                vals.len() == self.tasks@.len(),
                acc.deep_view() == tasks_with_priority(vals.take(i as int), priority),
            decreases self.tasks@.len() - i,
        {
            let ghost prev = acc.deep_view();
            proof {
                assert(vals[i as int] == self.tasks@[i as int].1@);
                assert(vals.take(i + 1).drop_last() =~= vals.take(i as int));
                assert(vals.take(i + 1).last() == vals[i as int]);
            }
            if self.tasks[i].1.priority == priority {
                let x = self.tasks[i].1.clone();
                acc.push(x);
                proof {
                    assert(acc.deep_view() =~= prev.push(vals[i as int]));
                }
            }
            i = i + 1;
        }
        proof {
            assert(vals.take(vals.len() as int) =~= vals);
        }
        let page = parse_page_token(page_token);
        let size: usize = if page_size <= 0 {
            0
        } else {
            page_size as usize
        };
        task_window(&acc, page, size)
    }

    /// The page of the tasks whose lowered title or description contains the
    /// lowered query, as copies.
    pub fn search_tasks(&self, query: &str, page_size: i32, page_token: &str) -> (r: Vec<Task>)
        requires
            self.wf(),
        ensures
            r.deep_view() == page_slice(
                tasks_matching(al_values(self@.tasks), query@),
                token_page(page_token@),
                clamp_size(page_size),
            ),
    {
        let ghost vals = al_values(pairs_view(self.tasks@));
        let ql = lowercase(query);
        let qlc = string_to_chars(ql.as_str());
        let mut acc: Vec<Task> = Vec::new();
        let mut i: usize = 0;
        while i < self.tasks.len()
            invariant
                0 <= i <= self.tasks@.len(),
                vals == al_values(pairs_view(self.tasks@)),
                vals.len() == self.tasks@.len(),
                qlc@ == lower_of(query@),
                acc.deep_view() == tasks_matching(vals.take(i as int), query@),
            decreases self.tasks@.len() - i,
        {
            let ghost prev = acc.deep_view();
            proof {
                assert(vals[i as int] == self.tasks@[i as int].1@);
                assert(vals.take(i + 1).drop_last() =~= vals.take(i as int));
                assert(vals.take(i + 1).last() == vals[i as int]);
            }
            if task_match_exec(&self.tasks[i].1, &qlc, Ghost(query@)) {
                let x = self.tasks[i].1.clone();
                acc.push(x);
                proof {
                    assert(acc.deep_view() =~= prev.push(vals[i as int]));
                }
            }
            i = i + 1;
        }
        proof {
            assert(vals.take(vals.len() as int) =~= vals);
        }
        let page = parse_page_token(page_token);
        let size: usize = if page_size <= 0 {
            0
        } else {
            page_size as usize
        };
        task_window(&acc, page, size)
    }

    /// The page of the users whose lowered username, email or full name
    /// contains the lowered query, as copies.
    pub fn search_users(&self, query: &str, page_size: i32, page_token: &str) -> (r: Vec<User>)
        requires
            self.wf(),
        ensures
            r.deep_view() == page_slice(
                users_matching(al_values(self@.users), query@),
                token_page(page_token@),
                clamp_size(page_size),
            ),
    {
        let ghost vals = al_values(pairs_view(self.users@));
        let ql = lowercase(query);
        let qlc = string_to_chars(ql.as_str());
        let mut acc: Vec<User> = Vec::new();
        let mut i: usize = 0;
        while i < self.users.len()
            invariant
                0 <= i <= self.users@.len(),
                vals == al_values(pairs_view(self.users@)),
                vals.len() == self.users@.len(),
                qlc@ == lower_of(query@),
                acc.deep_view() == users_matching(vals.take(i as int), query@),
            decreases self.users@.len() - i,
        {
            let ghost prev = acc.deep_view();
            proof {
                assert(vals[i as int] == self.users@[i as int].1@);
                assert(vals.take(i + 1).drop_last() =~= vals.take(i as int));
                assert(vals.take(i + 1).last() == vals[i as int]);
            }
            if user_match_exec(&self.users[i].1, &qlc, Ghost(query@)) {
                let x = self.users[i].1.clone();
                acc.push(x);
                proof {
                    assert(acc.deep_view() =~= prev.push(vals[i as int]));
                }
            }
            i = i + 1;
        }
        proof {
            assert(vals.take(vals.len() as int) =~= vals);
        }
        let page = parse_page_token(page_token);
        let size: usize = if page_size <= 0 {
            0
        } else {
            page_size as usize
        };
        user_window(&acc, page, size)
    }

    /// The page of the tasks filed under `user_id`, in filing order, as
    /// copies; well-formedness guarantees every filed identifier resolves.
    pub fn get_tasks_by_user(&self, user_id: &str, page_size: i32, page_token: &str) -> (r: Vec<
        Task,
    >)
        requires
            self.wf(),
        ensures
            r.deep_view() == tasks_of_ids(
                self@,
                page_slice(
                    list_of(self@.user_tasks, user_id@),
                    token_page(page_token@),
                    clamp_size(page_size),
                ),
            ),
    {
        let ghost v = self@;
        let ghost full = list_of(v.user_tasks, user_id@);
        let ids: Vec<String> = match al_get_ref(&self.user_tasks, user_id) {
            Some(l) => clone_strings(l),
            None => Vec::new(),
        };
        proof {
            if al_get(v.user_tasks, user_id@) is None {
                assert(ids.deep_view() =~= full);
            }
        }
        let page = parse_page_token(page_token);
        let size: usize = if page_size <= 0 {
            0
        } else {
            page_size as usize
        };
        let len = ids.len();
        if size == 0 {
            proof {
                assert(page * 0 == 0) by (nonlinear_arith);
                assert(page_slice(full, page as nat, 0) =~= Seq::<Seq<char>>::empty());
                assert(tasks_of_ids(v, page_slice(full, page as nat, 0)) =~= Seq::<
                    TaskView,
                >::empty());
            }
            let r: Vec<Task> = Vec::new();
            proof {
                assert(r.deep_view() =~= Seq::<TaskView>::empty());
            }
            return r;
        }
        proof {
            lemma_page_bounds(page as int, size as int, len as int);
        }
        let start: usize = if page <= len / size {
            page * size
        } else {
            len
        };
        let end: usize = if size <= len - start {
            start + size
        } else {
            len
        };
        let ghost window = page_slice(full, page as nat, size as nat);
        proof {
            assert(window =~= full.subrange(start as int, end as int));
        }
        let mut r: Vec<Task> = Vec::new();
        let mut idx: usize = start;
        while idx < end
            invariant
                start <= idx <= end <= full.len(),
                self.wf(),
                v == self@,
                full == list_of(v.user_tasks, user_id@),
                ids.deep_view() == full,
                full.len() == ids@.len(),
                r.deep_view() == tasks_of_ids(v, full.subrange(start as int, idx as int)),
            decreases end - idx,
        {
            let ghost prev = r.deep_view();
            proof {
                assert(ids.deep_view()[idx as int] == ids@[idx as int]@);
                // well-formedness: the filed identifier names a stored task
                assert(ut_entry_ok(v.tasks, user_id@, list_of(v.user_tasks, user_id@)[idx as int]));
            }
            match al_get_ref(&self.tasks, ids[idx].as_str()) {
                Some(t) => {
                    let x = t.clone();
                    proof {
                        assert(x@ == task_at(v, full[idx as int]));
                    }
                    r.push(x);
                    proof {
                        assert(r.deep_view() =~= prev.push(task_at(v, full[idx as int])));
                        assert(prev.push(task_at(v, full[idx as int])) =~= tasks_of_ids(
                            v,
                            full.subrange(start as int, idx + 1),
                        ));
                    }
                },
                None => {
                    proof {
                        assert(false);
                    }
                },
            }
            idx = idx + 1;
        }
        proof {
            assert(r.deep_view() =~= tasks_of_ids(v, window));
        }
        r
    }
}


/// A run of full task replacements applied in order.
pub open spec fn batch_tasks_view(v: StoreView, ts: Seq<TaskView>) -> StoreView
    decreases ts.len(),
{
    if ts.len() == 0 {
        v
    } else {
        put_task_view(batch_tasks_view(v, ts.drop_last()), ts.last())
    }
}

/// A run of user filings applied in order.
pub open spec fn batch_users_view(v: StoreView, us: Seq<UserView>) -> StoreView
    decreases us.len(),
{
    if us.len() == 0 {
        v
    } else {
        insert_user_view(batch_users_view(v, us.drop_last()), us.last())
    }
}

/// The tags of `s` that are not named in `rm`, in order.
pub open spec fn tags_kept(s: Seq<Seq<char>>, rm: Seq<Seq<char>>) -> Seq<Seq<char>>
    decreases s.len(),
{
    if s.len() == 0 {
        Seq::empty()
    } else {
        let r = tags_kept(s.drop_last(), rm);
        if rm.contains(s.last()) {
            r
        } else {
            r.push(s.last())
        }
    }
}

/// One task under a bulk update: the status when one is given, the assignee
/// when one is given, the added tags minus the removed ones, and a fresh
/// update stamp.
pub open spec fn bulk_apply(
    t: TaskView,
    status: TaskStatus,
    assigned: Seq<char>,
    add: Seq<Seq<char>>,
    remove: Seq<Seq<char>>,
    now: Timestamp,
) -> TaskView {
    let t1 = if status != TaskStatus::Unspecified {
        TaskView { status: status, ..t }
    } else {
        t
    };
    let t2 = if assigned.len() > 0 {
        TaskView { assigned_to: assigned, ..t1 }
    } else {
        t1
    };
    TaskView { tags: tags_kept(t2.tags + add, remove), updated_at: Some(now), ..t2 }
}

/// A bulk update folded over the identifiers in order; missing identifiers
/// change nothing.
pub open spec fn bulk_view(
    v: StoreView,
    ids: Seq<Seq<char>>,
    status: TaskStatus,
    assigned: Seq<char>,
    add: Seq<Seq<char>>,
    remove: Seq<Seq<char>>,
    now: Timestamp,
) -> StoreView
    decreases ids.len(),
{
    if ids.len() == 0 {
        v
    } else {
        let w = bulk_view(v, ids.drop_last(), status, assigned, add, remove, now);
        match al_get(w.tasks, ids.last()) {
            Some(t) => put_task_view(w, bulk_apply(t, status, assigned, add, remove, now)),
            None => w,
        }
    }
}

/// The identifiers of a bulk update that name no stored task, in order.
pub open spec fn bulk_failed(v: StoreView, ids: Seq<Seq<char>>) -> Seq<Seq<char>>
    decreases ids.len(),
{
    if ids.len() == 0 {
        Seq::empty()
    } else {
        let r = bulk_failed(v, ids.drop_last());
        if al_contains(v.tasks, ids.last()) {
            r
        } else {
            r.push(ids.last())
        }
    }
}

/// The strings of `v` not named in `rm`, in order, as copies.
fn retain_not_in(v: &Vec<String>, rm: &Vec<String>) -> (r: Vec<String>)
    ensures
        r.deep_view() == tags_kept(v.deep_view(), rm.deep_view()),
{
    let ghost dv = v.deep_view();
    let mut out: Vec<String> = Vec::new();
    let mut i: usize = 0;
    while i < v.len()
        invariant
            0 <= i <= v@.len(),
            dv == v.deep_view(),
            dv.len() == v@.len(),
            out.deep_view() == tags_kept(dv.take(i as int), rm.deep_view()),
        decreases v@.len() - i,
    {
        let ghost prev = out.deep_view();
        proof {
            assert(dv[i as int] == v@[i as int]@);
            assert(dv.take(i + 1).drop_last() =~= dv.take(i as int));
            assert(dv.take(i + 1).last() == dv[i as int]);
        }
        if !vec_contains_str(rm, v[i].as_str()) {
            out.push(v[i].clone());
            proof {
                assert(out.deep_view() =~= prev.push(dv[i as int]));
            }
        }
        i = i + 1;
    }
    proof {
        assert(dv.take(dv.len() as int) =~= dv);
    }
    out
}

/// One task rewritten by a bulk update.
fn bulk_apply_exec(
    t: Task,
    status: TaskStatus,
    assigned_to: &str,
    add: &Vec<String>,
    remove: &Vec<String>,
    now: Timestamp,
) -> (r: Task)
    ensures
        r@ == bulk_apply(t@, status, assigned_to@, add.deep_view(), remove.deep_view(), now),
{
    let ghost t0 = t@;
    let mut t = t;
    if !(status == TaskStatus::Unspecified) {
        t.status = status;
    }
    if !assigned_to.is_empty() {
        t.assigned_to = assigned_to.to_owned();
    }
    let ghost t2 = t@;
    let mut combined = clone_strings(&t.tags);
    let ghost base = combined.deep_view();
    let mut i: usize = 0;
    while i < add.len()
        invariant
            0 <= i <= add@.len(),
            base == t2.tags,
            combined.deep_view() == base + add.deep_view().take(i as int),
            add.deep_view().len() == add@.len(),
        decreases add@.len() - i,
    {
        let ghost prev = combined.deep_view();
        proof {
            assert(add.deep_view()[i as int] == add@[i as int]@);
        }
        combined.push(add[i].clone());
        proof {
            assert(combined.deep_view() =~= prev.push(add.deep_view()[i as int]));
            assert(combined.deep_view() =~= base + add.deep_view().take(i + 1));
        }
        i = i + 1;
    }
    proof {
        assert(add.deep_view().take(add.deep_view().len() as int) =~= add.deep_view());
        assert(combined.deep_view() == t2.tags + add.deep_view());
    }
    t.tags = retain_not_in(&combined, remove);
    t.updated_at = Some(now);
    proof {
        assert(t@ =~= bulk_apply(t0, status, assigned_to@, add.deep_view(), remove.deep_view(), now));
    }
    t
}

impl Storage {
    /// Creates a user under a freshly drawn identifier, stamped with the
    /// clock's reading; see `create_user_with_id` for the success and
    /// failure conditions.
    pub fn create_user(&mut self, user: User) -> (r: Result<User, StoreError>)
        requires
            old(self).wf(),
        ensures
            final(self).wf(),
            final(self).same_config(old(self)),
            match r {
                Ok(u) => {
                    &&& !user_email_taken(old(self)@, user@.email)
                    &&& u@.id.len() == 36
                    &&& (u@.created_at matches Some(now) && u@ == stamped_user(
                        user@,
                        u@.id,
                        now,
                    ) && final(self)@ == insert_user_view(old(self)@, u@))
                },
                Err(e) => {
                    &&& e == StoreError::AlreadyExists
                    &&& user_email_taken(old(self)@, user@.email)
                    &&& final(self)@ == old(self)@
                },
            },
    {
        let id = fresh_uuid();
        let now = now_timestamp();
        self.create_user_with_id(user, id, now)
    }

    /// Files every task of the batch in order, exactly as handed in: no
    /// fresh identifiers and no stamping, the assignment index restored at
    /// every step.
    pub fn batch_create_tasks(&mut self, tasks: Vec<Task>)
        requires
            old(self).wf(),
        ensures
            final(self).wf(),
            final(self).same_config(old(self)),
            final(self)@ == batch_tasks_view(old(self)@, tasks.deep_view()),
    {
        let ghost v0 = self@;
        let ghost dv = tasks.deep_view();
        let mut i: usize = 0;
        while i < tasks.len()
            invariant
                0 <= i <= tasks@.len(),
                dv == tasks.deep_view(),
                dv.len() == tasks@.len(),
                self.wf(),
                self.same_config(old(self)),
                self@ == batch_tasks_view(v0, dv.take(i as int)),
            decreases tasks@.len() - i,
        {
            proof {
                assert(dv[i as int] == tasks@[i as int]@);
                assert(dv.take(i + 1).drop_last() =~= dv.take(i as int));
                assert(dv.take(i + 1).last() == dv[i as int]);
            }
            let x = tasks[i].clone();
            self.update_task(x);
            i = i + 1;
        }
        proof {
            assert(dv.take(dv.len() as int) =~= dv);
        }
    }

    /// Files every user of the batch in order, exactly as handed in: no
    /// uniqueness check, no fresh identifiers and no stamping.
    pub fn batch_create_users(&mut self, users: Vec<User>)
        requires
            old(self).wf(),
        ensures
            final(self).wf(),
            final(self).same_config(old(self)),
            final(self)@ == batch_users_view(old(self)@, users.deep_view()),
    {
        let ghost v0 = self@;
        let ghost dv = users.deep_view();
        let mut i: usize = 0;
        while i < users.len()
            invariant
                0 <= i <= users@.len(),
                dv == users.deep_view(),
                dv.len() == users@.len(),
                self.wf(),
                self.same_config(old(self)),
                self@ == batch_users_view(v0, dv.take(i as int)),
            decreases users@.len() - i,
        {
            proof {
                assert(dv[i as int] == users@[i as int]@);
                assert(dv.take(i + 1).drop_last() =~= dv.take(i as int));
                assert(dv.take(i + 1).last() == dv[i as int]);
            }
            let x = users[i].clone();
            self.insert_user(x);
            i = i + 1;
        }
        proof {
            assert(dv.take(dv.len() as int) =~= dv);
        }
    }

    /// Rewrites every named task in order — status, assignee and tags as
    /// `bulk_apply` says — stamping each with `now`; identifiers that name
    /// no stored task are reported back in order. Hands back how many tasks
    /// were rewritten and the failed identifiers.
    pub fn bulk_update_tasks(
        &mut self,
        task_ids: &Vec<String>,
        status: TaskStatus,
        assigned_to: &str,
        tags_to_add: &Vec<String>,
        tags_to_remove: &Vec<String>,
        now: Timestamp,
    ) -> (r: (usize, Vec<String>))
        requires
            old(self).wf(),
        ensures
            final(self).wf(),
            final(self).same_config(old(self)),
            final(self)@ == bulk_view(
                old(self)@,
                task_ids.deep_view(),
                status,
                assigned_to@,
                tags_to_add.deep_view(),
                tags_to_remove.deep_view(),
                now,
            ),
            r.1.deep_view() == bulk_failed(old(self)@, task_ids.deep_view()),
            r.0 + r.1@.len() == task_ids@.len(),
    {
        let ghost v0 = self@;
        let ghost dv = task_ids.deep_view();
        let ghost addv = tags_to_add.deep_view();
        let ghost rmv = tags_to_remove.deep_view();
        let mut updated: usize = 0;
        let mut failed: Vec<String> = Vec::new();
        let mut i: usize = 0;
        while i < task_ids.len()
            invariant
                0 <= i <= task_ids@.len(),
                dv == task_ids.deep_view(),
                dv.len() == task_ids@.len(),
                addv == tags_to_add.deep_view(),
                rmv == tags_to_remove.deep_view(),
                self.wf(),
                self.same_config(old(self)),
                self@ == bulk_view(v0, dv.take(i as int), status, assigned_to@, addv, rmv, now),
                forall|k: Seq<char>| #[trigger] al_contains(self@.tasks, k) == al_contains(
                    v0.tasks,
                    k,
                ),
                failed.deep_view() == bulk_failed(v0, dv.take(i as int)),
                failed@.len() == failed.deep_view().len(),
                updated + failed@.len() == i,
            decreases task_ids@.len() - i,
        {
            let ghost cur = self@;
            let ghost prev_failed = failed.deep_view();
            proof {
                assert(dv[i as int] == task_ids@[i as int]@);
                assert(dv.take(i + 1).drop_last() =~= dv.take(i as int));
                assert(dv.take(i + 1).last() == dv[i as int]);
            }
            let found: Option<Task> = match al_get_ref(&self.tasks, task_ids[i].as_str()) {
                Some(t) => Some(t.clone()),
                None => None,
            };
            match found {
                Some(t) => {
                    let ghost tv = t@;
                    let x = bulk_apply_exec(t, status, assigned_to, tags_to_add, tags_to_remove, now);
                    proof {
                        assert(x@.id == tv.id);
                        // the stored record is keyed by its own identifier
                        assert(al_contains(cur.tasks, dv[i as int]));
                        let idx = al_index(cur.tasks, dv[i as int]);
                        assert(0 <= idx < cur.tasks.len() && cur.tasks[idx].0 == dv[i as int]);
                        assert(cur.tasks[idx].1.id == cur.tasks[idx].0);
                        assert(tv.id == dv[i as int]);
                        lemma_put_task(cur, x@);
                    }
                    self.update_task(x);
                    updated = updated + 1;
                    proof {
                        assert(al_contains(cur.tasks, dv[i as int]));
                        assert(al_contains(v0.tasks, dv[i as int]));
                        assert(failed.deep_view() == bulk_failed(v0, dv.take(i + 1)));
                        assert forall|k: Seq<char>| #[trigger] al_contains(self@.tasks, k)
                            == al_contains(v0.tasks, k) by {
                            assert(al_contains(put_task_view(cur, x@).tasks, k) == (al_contains(
                                cur.tasks,
                                k,
                            ) || k == x@.id));
                        }
                    }
                },
                None => {
                    failed.push(task_ids[i].clone());
                    proof {
                        assert(!al_contains(cur.tasks, dv[i as int]));
                        assert(!al_contains(v0.tasks, dv[i as int]));
                        assert(failed.deep_view() =~= prev_failed.push(dv[i as int]));
                    }
                },
            }
            i = i + 1;
        }
        proof {
            assert(dv.take(dv.len() as int) =~= dv);
        }
        (updated, failed)
    }
}


/// Whether the keys of a keyed collection are pairwise distinct.
fn check_unique_keys<V: DeepView>(v: &Vec<(String, V)>) -> (r: bool)
    ensures
        r == al_unique(pairs_view(v@)),
{
    let ghost pv = pairs_view(v@);
    let mut i: usize = 0;
    while i < v.len()
        invariant
            0 <= i <= v@.len(),
            pv == pairs_view(v@),
            pv.len() == v@.len(),
            forall|a: int, b: int| #![trigger pv[a].0, pv[b].0] 0 <= a < b < i ==> pv[a].0
                != pv[b].0,
        decreases v@.len() - i,
    {
        let mut j: usize = 0;
        while j < i
            invariant
                0 <= j <= i < v@.len(),
                pv == pairs_view(v@),
                pv.len() == v@.len(),
                forall|a: int, b: int| #![trigger pv[a].0, pv[b].0] 0 <= a < b < i ==> pv[a].0
                    != pv[b].0,
                forall|a: int| 0 <= a < j ==> (#[trigger] pv[a]).0 != pv[i as int].0,
            decreases i - j,
        {
            if str_eq(v[j].0.as_str(), v[i].0.as_str()) {
                proof {
                    assert(pv[j as int].0 == pv[i as int].0);
                    assert(!al_unique(pv));
                }
                return false;
            }
            j = j + 1;
        }
        i = i + 1;
    }
    true
}

/// Whether every user entry is keyed by its record's identifier.
fn check_users_keyed(v: &Vec<(String, User)>) -> (r: bool)
    ensures
        r == users_keyed_by_id(pairs_view(v@)),
{
    let ghost pv = pairs_view(v@);
    let mut i: usize = 0;
    while i < v.len()
        invariant
            0 <= i <= v@.len(),
            pv == pairs_view(v@),
            pv.len() == v@.len(),
            forall|a: int| 0 <= a < i ==> (#[trigger] pv[a]).1.id == pv[a].0,
        decreases v@.len() - i,
    {
        if !str_eq(v[i].0.as_str(), v[i].1.id.as_str()) {
            proof {
                assert(pv[i as int].1.id != pv[i as int].0);
            }
            return false;
        }
        i = i + 1;
    }
    true
}

/// Whether every task entry is keyed by its record's identifier.
fn check_tasks_keyed(v: &Vec<(String, Task)>) -> (r: bool)
    ensures
        r == tasks_keyed_by_id(pairs_view(v@)),
{
    let ghost pv = pairs_view(v@);
    let mut i: usize = 0;
    while i < v.len()
        invariant
            0 <= i <= v@.len(),
            pv == pairs_view(v@),
            pv.len() == v@.len(),
            forall|a: int| 0 <= a < i ==> (#[trigger] pv[a]).1.id == pv[a].0,
        decreases v@.len() - i,
    {
        if !str_eq(v[i].0.as_str(), v[i].1.id.as_str()) {
            proof {
                assert(pv[i as int].1.id != pv[i as int].0);
            }
            return false;
        }
        i = i + 1;
    }
    true
}

/// One user-to-tasks entry passes: nothing under the empty key, no duplicate
/// filings, every filing a stored task assigned to that user.
spec fn ut_entry_checked(
    tv: Seq<(Seq<char>, TaskView)>,
    utv: Seq<(Seq<char>, Seq<Seq<char>>)>,
    a: int,
) -> bool {
    &&& (utv[a].0.len() == 0 ==> utv[a].1.len() == 0)
    &&& seq_nodup(utv[a].1)
    &&& forall|j: int| 0 <= j < utv[a].1.len() ==> ut_entry_ok(tv, utv[a].0, #[trigger] utv[a].1[j])
}

/// Whether the user-to-tasks index is coherent against the task map.
#[verifier::rlimit(100)]
fn check_ut(tasks: &Vec<(String, Task)>, ut: &Vec<(String, Vec<String>)>) -> (r: bool)
    requires
        al_unique(pairs_view(ut@)),
        al_unique(pairs_view(tasks@)),
    ensures
        r == ut_ok(pairs_view(tasks@), pairs_view(ut@)),
{
    let ghost tv = pairs_view(tasks@);
    let ghost utv = pairs_view(ut@);
    let mut i: usize = 0;
    while i < ut.len()
        invariant
            0 <= i <= ut@.len(),
            tv == pairs_view(tasks@),
            utv == pairs_view(ut@),
            utv.len() == ut@.len(),
            al_unique(utv),
            al_unique(tv),
            forall|a: int| 0 <= a < i ==> #[trigger] ut_entry_checked(tv, utv, a),
        decreases ut@.len() - i,
    {
        let ghost key = utv[i as int].0;
        let ghost lst = utv[i as int].1;
        proof {
            assert(key == ut@[i as int].0@);
            assert(lst == ut@[i as int].1.deep_view());
            lemma_al_index(utv, key, i as int);
        }
        if ut[i].0.as_str().is_empty() && ut[i].1.len() > 0 {
            proof {
                assert(key =~= Seq::<char>::empty());
                assert(list_of(utv, Seq::empty()) == lst);
                assert(!ut_ok(tv, utv));
            }
            return false;
        }
        let lvec = &ut[i].1;
        let mut j: usize = 0;
        while j < lvec.len()
            invariant
                0 <= j <= lvec@.len(),
                tv == pairs_view(tasks@),
                utv == pairs_view(ut@),
                utv.len() == ut@.len(),
                al_unique(utv),
                al_unique(tv),
                0 <= i < ut@.len(),
                lvec == &ut@[i as int].1,
                key == utv[i as int].0,
                lst == utv[i as int].1,
                lst == lvec.deep_view(),
                lst.len() == lvec@.len(),
                al_get(utv, key) == Some(lst),
                forall|a: int| 0 <= a < i ==> #[trigger] ut_entry_checked(tv, utv, a),
                forall|a: int, b: int| #![trigger lst[a], lst[b]] 0 <= a < b < j ==> lst[a]
                    != lst[b],
                forall|a: int| 0 <= a < j ==> ut_entry_ok(tv, key, #[trigger] lst[a]),
            decreases lvec@.len() - j,
        {
            proof {
                assert(lst[j as int] == lvec@[j as int]@);
            }
            let mut k: usize = 0;
            while k < j
                invariant
                    0 <= k <= j < lvec@.len(),
                    lst == lvec.deep_view(),
                    lst.len() == lvec@.len(),
                    key == utv[i as int].0,
                    utv == pairs_view(ut@),
                    tv == pairs_view(tasks@),
                    al_unique(utv),
                    0 <= i < ut@.len(),
                    lvec == &ut@[i as int].1,
                    lst == utv[i as int].1,
                    al_get(utv, key) == Some(lst),
                    forall|a: int| 0 <= a < k ==> (#[trigger] lst[a]) != lst[j as int],
                decreases j - k,
            {
                if str_eq(lvec[k].as_str(), lvec[j].as_str()) {
                    proof {
                        assert(lst[k as int] == lst[j as int]);
                        assert(!seq_nodup(list_of(utv, key)));
                        assert(!ut_ok(tv, utv));
                    }
                    return false;
                }
                k = k + 1;
            }
            let ok = match al_get_ref(tasks, lvec[j].as_str()) {
                Some(t) => str_eq(t.assigned_to.as_str(), ut[i].0.as_str()),
                None => false,
            };
            if !ok {
                proof {
                    assert(!ut_entry_ok(tv, key, list_of(utv, key)[j as int]));
                    assert(!ut_ok(tv, utv));
                }
                return false;
            }
            j = j + 1;
        }
        proof {
            assert(ut_entry_checked(tv, utv, i as int));
        }
        i = i + 1;
    }
    proof {
        assert forall|u: Seq<char>, n: int| 0 <= n < list_of(utv, u).len()
            implies ut_entry_ok(tv, u, #[trigger] list_of(utv, u)[n]) by {
            if al_contains(utv, u) {
                let a = al_index(utv, u);
                assert(0 <= a < utv.len() && utv[a].0 == u);
                assert(ut_entry_checked(tv, utv, a));
                assert(list_of(utv, u) == utv[a].1);
            }
        }
        assert forall|u: Seq<char>| seq_nodup(#[trigger] list_of(utv, u)) by {
            if al_contains(utv, u) {
                let a = al_index(utv, u);
                assert(ut_entry_checked(tv, utv, a));
                assert(list_of(utv, u) == utv[a].1);
            }
        }
        assert(list_of(utv, Seq::empty()).len() == 0) by {
            if al_contains(utv, Seq::<char>::empty()) {
                let a = al_index(utv, Seq::<char>::empty());
                assert(0 <= a < utv.len() && utv[a].0 == Seq::<char>::empty());
                assert(ut_entry_checked(tv, utv, a));
                assert(list_of(utv, Seq::empty()) == utv[a].1);
            }
        }
    }
    true
}

impl Storage {
    /// The whole store serialized as one snapshot document.
    pub fn snapshot_string(&self) -> (r: String)
        ensures
            r@ == senc_snapshot(self@),
    {
        proof {
            reveal(senc_snapshot);
        }
        let mut out: Vec<char> = Vec::new();
        out.push('t');
        out.push('s');
        out.push('v');
        out.push('1');
        proof {
            assert(out@ =~= snap_header());
        }
        enc_users(&mut out, &self.users);
        enc_sindex(&mut out, &self.users_by_email);
        enc_sindex(&mut out, &self.users_by_username);
        enc_tasks(&mut out, &self.tasks);
        enc_utlists(&mut out, &self.user_tasks);
        proof {
            assert(out@ == senc_snapshot(self@));
        }
        chars_to_string(&out)
    }

    /// Parses a snapshot document and replaces the whole in-memory state
    /// with it, in one step. Fails with `DecodeFailure`, leaving the store
    /// untouched, exactly when the document does not parse to its end as a
    /// well-formed store.
    #[verifier::rlimit(100)]
    pub fn load_snapshot(&mut self, text: &str) -> (r: Result<(), StoreError>)
        ensures
            final(self).same_config(old(self)),
            match r {
                Ok(()) => {
                    &&& (sdec_snapshot(text@) matches Some((w, n)) && n == text@.len() && w.wf()
                        && final(self)@ == w)
                    &&& final(self).wf()
                },
                Err(e) => {
                    &&& e == StoreError::DecodeFailure
                    &&& final(self)@ == old(self)@
                    &&& !(sdec_snapshot(text@) matches Some((w, n)) && n == text@.len()
                        && w.wf())
                },
            },
    {
        proof {
            reveal(sdec_snapshot);
        }
        let chars = string_to_chars(text);
        if chars.len() < 4 {
            return Err(StoreError::DecodeFailure);
        }
        if !(chars[0] == 't' && chars[1] == 's' && chars[2] == 'v' && chars[3] == '1') {
            proof {
                if text@.take(4) == snap_header() {
                    assert(text@.take(4)[0] == 't');
                    assert(text@.take(4)[1] == 's');
                    assert(text@.take(4)[2] == 'v');
                    assert(text@.take(4)[3] == '1');
                }
            }
            return Err(StoreError::DecodeFailure);
        }
        proof {
            assert(text@.take(4) =~= snap_header());
            assert(text@.skip(0) =~= text@);
        }
        let (users, j0) = match dec_users(&chars, 4) {
            Some(p) => p,
            None => {
                proof {
                    assert(text@.skip(4) == chars@.skip(4));
                }
                return Err(StoreError::DecodeFailure);
            },
        };
        let (emails, j1) = match dec_sindex(&chars, j0) {
            Some(p) => p,
            None => {
                return Err(StoreError::DecodeFailure);
            },
        };
        let (usernames, j2) = match dec_sindex(&chars, j1) {
            Some(p) => p,
            None => {
                return Err(StoreError::DecodeFailure);
            },
        };
        let (tasks, j3) = match dec_tasks(&chars, j2) {
            Some(p) => p,
            None => {
                return Err(StoreError::DecodeFailure);
            },
        };
        let (user_tasks, j4) = match dec_utlists(&chars, j3) {
            Some(p) => p,
            None => {
                return Err(StoreError::DecodeFailure);
            },
        };
        let ghost w = StoreView {
            users: pairs_view(users@),
            emails: pairs_view(emails@),
            usernames: pairs_view(usernames@),
            tasks: pairs_view(tasks@),
            user_tasks: pairs_view(user_tasks@),
        };
        proof {
            assert(sdec_snapshot(text@) matches Some((w2, n)) && w2 == w && n == j4 as int);
        }
        if j4 != chars.len() {
            return Err(StoreError::DecodeFailure);
        }
        // the parsed state must be a well-formed store
        if !(check_unique_keys(&users) && check_unique_keys(&emails) && check_unique_keys(
            &usernames,
        ) && check_unique_keys(&tasks) && check_unique_keys(&user_tasks)) {
            return Err(StoreError::DecodeFailure);
        }
        if !(check_users_keyed(&users) && check_tasks_keyed(&tasks)) {
            return Err(StoreError::DecodeFailure);
        }
        if !check_ut(&tasks, &user_tasks) {
            return Err(StoreError::DecodeFailure);
        }
        self.users = users;
        self.users_by_email = emails;
        self.users_by_username = usernames;
        self.tasks = tasks;
        self.user_tasks = user_tasks;
        proof {
            assert(self@ =~= w);
        }
        Ok(())
    }
}


impl Storage {
    /// Replaces the preferences block of the user under `user_id` and stamps
    /// the update time; fails with `NotFound`, changing nothing, exactly
    /// when no user is stored under it.
    pub fn update_user_preferences(
        &mut self,
        user_id: &str,
        preferences: Option<UserPreferences>,
        now: Timestamp,
    ) -> (r: Result<User, StoreError>)
        requires
            old(self).wf(),
        ensures
            final(self).wf(),
            final(self).same_config(old(self)),
            match r {
                Ok(u) => {
                    &&& (al_get(old(self)@.users, user_id@) matches Some(stored) && u@ == (
                    UserView {
                        preferences: preferences.deep_view(),
                        updated_at: Some(now),
                        ..stored
                    }) && final(self)@ == (StoreView {
                        users: al_put(old(self)@.users, stored.id, u@),
                        ..old(self)@
                    }))
                },
                Err(e) => {
                    &&& e == StoreError::NotFound
                    &&& al_get(old(self)@.users, user_id@) is None
                    &&& final(self)@ == old(self)@
                },
            },
    {
        match self.get_user(user_id) {
            Some(mut u) => {
                u.preferences = preferences;
                u.updated_at = Some(now);
                let copy = u.clone();
                self.update_user(u);
                Ok(copy)
            },
            None => Err(StoreError::NotFound),
        }
    }

    /// The simple counts of the analytics block, all taken from one state of
    /// the store at the given time.
    pub fn task_analytics(&self, now_seconds: i64) -> (r: TaskAnalytics)
        ensures
            r.total_tasks == self@.tasks.len(),
            r.completed_tasks == tasks_with_status(al_values(self@.tasks), TaskStatus::Done).len(),
            r.in_progress_tasks == tasks_with_status(
                al_values(self@.tasks),
                TaskStatus::InProgress,
            ).len(),
            r.todo_tasks == tasks_with_status(al_values(self@.tasks), TaskStatus::Todo).len(),
            r.overdue_tasks == overdue_in(al_values(self@.tasks), now_seconds).len(),
    {
        TaskAnalytics {
            total_tasks: self.count_tasks(),
            completed_tasks: self.count_tasks_by_status(TaskStatus::Done),
            in_progress_tasks: self.count_tasks_by_status(TaskStatus::InProgress),
            todo_tasks: self.count_tasks_by_status(TaskStatus::Todo),
            overdue_tasks: self.count_overdue_tasks_at(now_seconds),
        }
    }
}

} // verus!
