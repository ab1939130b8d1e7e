//! Stored rows and the public views built from them for one request.
use vstd::prelude::*;
use vstd::string::*;
use crate::error::AppError;

verus! {

/// A user row as stored. `email_verified` is an SQL integer flag.
pub struct User {
    pub id: String,
    pub name: Option<String>,
    pub email: String,
    pub email_verified: i64,
    pub master_password_hint: Option<String>,
    pub key: String,
    pub private_key: String,
    pub security_stamp: String,
}

/// The account fields a client reads from a sync snapshot.
pub struct Profile {
    pub id: String,
    pub name: Option<String>,
    pub email: String,
    pub email_verified: bool,
    pub master_password_hint: Option<String>,
    pub key: String,
    pub private_key: String,
    pub security_stamp: String,
}

/// A folder row as stored.
pub struct Folder {
    pub id: String,
    pub user_id: String,
    pub name: String,
    pub created_at: String,
    pub updated_at: String,
}

/// The public view of a folder.
pub struct FolderResponse {
    pub id: String,
    pub name: String,
    pub revision_date: String,
    pub object: String,
}

/// The text an optional string holds, if any.
pub open spec fn opt_view(o: Option<String>) -> Option<Seq<char>> {
    match o {
        Some(s) => Some(s@),
        None => None,
    }
}

/// A stored integer flag is well formed when it is 0 or 1.
pub open spec fn flag_ok(v: i64) -> bool {
    v == 0 || v == 1
}

/// The profile that a well-formed user row maps to, field by field.
pub open spec fn profile_of(u: User, p: Profile) -> bool {
    &&& p.id@ == u.id@
    &&& opt_view(p.name) == opt_view(u.name)
    &&& p.email@ == u.email@
    &&& p.email_verified == (u.email_verified == 1)
    &&& opt_view(p.master_password_hint) == opt_view(u.master_password_hint)
    &&& p.key@ == u.key@
    &&& p.private_key@ == u.private_key@
    &&& p.security_stamp@ == u.security_stamp@
}

/// The view of a folder: its identity, name and last change, tagged `folder`.
pub open spec fn folder_view_of(f: Folder, r: FolderResponse) -> bool {
    &&& r.id@ == f.id@
    &&& r.name@ == f.name@
    &&& r.revision_date@ == f.updated_at@
    &&& r.object@ == "folder"@
}

fn clone_opt(s: &Option<String>) -> (r: Option<String>)
    ensures
        opt_view(r) == opt_view(*s),
{
    match s {
        Some(x) => Some(x.clone()),
        None => None,
    }
}

impl Profile {
    /// The profile of a user row; `Internal` when its flag is neither 0 nor 1.
    pub fn from_user(user: User) -> (r: Result<Profile, AppError>)
        ensures
            r.is_ok() == flag_ok(user.email_verified),
            r matches Ok(p) ==> profile_of(user, p),
            r matches Err(e) ==> e is Internal,
    {
        if user.email_verified != 0 && user.email_verified != 1 {
            return Err(AppError::Internal);
        }
        Ok(Profile {
            id: user.id.clone(),
            name: clone_opt(&user.name),
            email: user.email.clone(),
            email_verified: user.email_verified == 1,
            master_password_hint: clone_opt(&user.master_password_hint),
            key: user.key.clone(),
            private_key: user.private_key.clone(),
            security_stamp: user.security_stamp.clone(),
        })
    }
}

impl FolderResponse {
    pub fn from_folder(f: &Folder) -> (r: FolderResponse)
        ensures
            folder_view_of(*f, r),
    {
        FolderResponse {
            id: f.id.clone(),
            name: f.name.clone(),
            revision_date: f.updated_at.clone(),
            object: String::from_str("folder"),
        }
    }
}

/// The views of all folders, in storage order.
pub fn folder_views(folders: &Vec<Folder>) -> (r: Vec<FolderResponse>)
    ensures
        r@.len() == folders@.len(),
        forall|i: int| 0 <= i < r@.len() ==> folder_view_of(folders@[i], #[trigger] r@[i]),
{
    let mut r: Vec<FolderResponse> = Vec::new();
    let mut i: usize = 0;
    while i < folders.len()
        invariant
            i <= folders@.len(),
            r@.len() == i,
            forall|k: int| 0 <= k < i ==> folder_view_of(folders@[k], #[trigger] r@[k]),
        decreases folders@.len() - i,
    {
        r.push(FolderResponse::from_folder(&folders[i]));
        i = i + 1;
    }
    r
}

} // verus!
