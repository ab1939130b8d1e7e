//! The sync snapshot: the profile, the folders and the raw vault-item array
//! spliced into one JSON object beside the fixed placeholder members.
use vstd::prelude::*;
use vstd::string::*;
use crate::ciphers::{cipher_array, item_texts, items_spliceable, AttachmentRow, CipherRow};
use crate::error::{AppError, StoreFault};
use crate::json::{
    array_text, frame_array, is_json, join, lemma_escape_plain, lemma_join_push,
    lemma_object_is_json, lemma_render_members, member_text, object_text, plain_char, render, render_items, texts, JsonValue,
};
use crate::models::{flag_ok, folder_view_of, folder_views, profile_of, Folder, FolderResponse, Profile, User};

verus! {

/// A response body that is already JSON text and is sent as it is.
pub struct RawJson(pub String);

/// The text of the empty array, which collections, policies and sends hold.
pub open spec fn empty_array() -> Seq<char> {
    "[]"@
}

/// The text of `null`, which domains holds.
pub open spec fn null_text() -> Seq<char> {
    "null"@
}

/// The text of the string `sync`, which object holds.
pub open spec fn sync_tag() -> Seq<char> {
    "\"sync\""@
}

/// The members of a snapshot, in their fixed order.
pub open spec fn snapshot_members(profile: Seq<char>, folders: Seq<char>, ciphers: Seq<char>) -> Seq<
    (Seq<char>, Seq<char>),
> {
    seq![
        ("profile"@, profile),
        ("folders"@, folders),
        ("collections"@, empty_array()),
        ("policies"@, empty_array()),
        ("ciphers"@, ciphers),
        ("domains"@, null_text()),
        ("sends"@, empty_array()),
        ("object"@, sync_tag()),
    ]
}

/// The text of a snapshot.
pub open spec fn snapshot_text(profile: Seq<char>, folders: Seq<char>, ciphers: Seq<char>) -> Seq<
    char,
> {
    object_text(snapshot_members(profile, folders, ciphers))
}

proof fn lemma_join_step(parts: Seq<Seq<char>>, n: int)
    requires
        0 <= n < parts.len(),
    ensures
        join(parts.take(n + 1)) == join(parts.take(n)) + (if n == 0 { seq![] } else { seq![','] })
            + parts[n],
{
    assert(parts.take(n + 1) =~= parts.take(n).push(parts[n]));
    lemma_join_push(parts.take(n), parts[n]);
    if n == 0 {
        assert(parts.take(0) =~= Seq::<Seq<char>>::empty());
    }
}

/// Appends one `"key":value` member, after a comma unless it is the first.
fn push_member(r: &mut String, key: &str, value: &str, first: bool)
    requires
        forall|i: int| 0 <= i < key@.len() ==> plain_char(#[trigger] key@[i]),
    ensures
        final(r)@ == old(r)@ + (if first { seq![] } else { seq![','] }) + member_text(key@, value@),
{
    proof {
        reveal_strlit(",");
        reveal_strlit("\"");
        reveal_strlit("\":");
        lemma_escape_plain(key@);
    }
    if !first {
        r.append(",");
    }
    r.append("\"");
    r.append(key);
    r.append("\":");
    r.append(value);
    assert(final(r)@ =~= old(r)@ + (if first { seq![] } else { seq![','] }) + member_text(key@, value@));
}

/// The member texts of a snapshot, in order.
pub open spec fn snapshot_parts(profile: Seq<char>, folders: Seq<char>, ciphers: Seq<char>) -> Seq<
    Seq<char>,
> {
    snapshot_members(profile, folders, ciphers).map_values(
        |m: (Seq<char>, Seq<char>)| member_text(m.0, m.1),
    )
}

/// Splices the profile text, the folder texts framed as one array and the
/// raw vault-item array into the snapshot object. Nothing handed in is
/// parsed or changed: the texts are trusted to be JSON.
pub fn compose_snapshot(profile_json: &str, folder_jsons: &Vec<String>, ciphers_json: &str) -> (r:
    String)
    ensures
        r@ == snapshot_text(profile_json@, array_text(texts(folder_jsons@)), ciphers_json@),
{
    let folders = frame_array(folder_jsons);
    let ghost parts = snapshot_parts(profile_json@, folders@, ciphers_json@);
    let ghost ms = snapshot_members(profile_json@, folders@, ciphers_json@);
    proof {
        reveal_strlit("{");
        reveal_strlit("}");
        reveal_strlit("[]");
        reveal_strlit("null");
        reveal_strlit("\"sync\"");
    }
    let mut r = String::from_str("{");
    proof {
        reveal_strlit("profile");
        assert(parts[0] == member_text(ms[0].0, ms[0].1));
        lemma_join_step(parts, 0);
    }
    push_member(&mut r, "profile", profile_json, true);
    assert(r@ =~= seq!['{'] + join(parts.take(1)));
    proof {
        reveal_strlit("folders");
        assert(parts[1] == member_text(ms[1].0, ms[1].1));
        lemma_join_step(parts, 1);
    }
    push_member(&mut r, "folders", folders.as_str(), false);
    assert(r@ =~= seq!['{'] + join(parts.take(2)));
    proof {
        reveal_strlit("collections");
        assert(parts[2] == member_text(ms[2].0, ms[2].1));
        lemma_join_step(parts, 2);
    }
    push_member(&mut r, "collections", "[]", false);
    assert(r@ =~= seq!['{'] + join(parts.take(3)));
    proof {
        reveal_strlit("policies");
        assert(parts[3] == member_text(ms[3].0, ms[3].1));
        lemma_join_step(parts, 3);
    }
    push_member(&mut r, "policies", "[]", false);
    assert(r@ =~= seq!['{'] + join(parts.take(4)));
    proof {
        reveal_strlit("ciphers");
        assert(parts[4] == member_text(ms[4].0, ms[4].1));
        lemma_join_step(parts, 4);
    }
    push_member(&mut r, "ciphers", ciphers_json, false);
    assert(r@ =~= seq!['{'] + join(parts.take(5)));
    proof {
        reveal_strlit("domains");
        assert(parts[5] == member_text(ms[5].0, ms[5].1));
        lemma_join_step(parts, 5);
    }
    push_member(&mut r, "domains", "null", false);
    assert(r@ =~= seq!['{'] + join(parts.take(6)));
    proof {
        reveal_strlit("sends");
        assert(parts[6] == member_text(ms[6].0, ms[6].1));
        lemma_join_step(parts, 6);
    }
    push_member(&mut r, "sends", "[]", false);
    assert(r@ =~= seq!['{'] + join(parts.take(7)));
    proof {
        reveal_strlit("object");
        assert(parts[7] == member_text(ms[7].0, ms[7].1));
        lemma_join_step(parts, 7);
    }
    push_member(&mut r, "object", "\"sync\"", false);
    assert(r@ =~= seq!['{'] + join(parts.take(8)));
    assert(parts.take(8) =~= parts);
    r.append("}");
    r
}

/// Of every snapshot: exactly the eight members in their order, with the
/// fixed placeholders; and when the three spliced texts are JSON, the whole
/// is a JSON object.
pub proof fn lemma_snapshot_shape(profile: Seq<char>, folders: Seq<char>, ciphers: Seq<char>)
    ensures
        snapshot_text(profile, folders, ciphers) == object_text(
            snapshot_members(profile, folders, ciphers),
        ),
        snapshot_members(profile, folders, ciphers).len() == 8,
        snapshot_members(profile, folders, ciphers).map_values(|m: (Seq<char>, Seq<char>)| m.0)
            =~= seq![
            "profile"@,
            "folders"@,
            "collections"@,
            "policies"@,
            "ciphers"@,
            "domains"@,
            "sends"@,
            "object"@,
        ],
        snapshot_members(profile, folders, ciphers)[2].1 == empty_array(),
        snapshot_members(profile, folders, ciphers)[3].1 == empty_array(),
        snapshot_members(profile, folders, ciphers)[5].1 == null_text(),
        snapshot_members(profile, folders, ciphers)[6].1 == empty_array(),
        snapshot_members(profile, folders, ciphers)[7].1 == sync_tag(),
        is_json(profile) && is_json(folders) && is_json(ciphers) ==> is_json(
            snapshot_text(profile, folders, ciphers),
        ),
{
    let ms = snapshot_members(profile, folders, ciphers);
    if is_json(profile) && is_json(folders) && is_json(ciphers) {
        reveal_strlit("[]");
        reveal_strlit("null");
        reveal_strlit("\"sync\"");
        assert(render(JsonValue::Arr(seq![])) == empty_array()) by {
            assert(render_items(seq![]) =~= Seq::<Seq<char>>::empty());
        }
        assert(render(JsonValue::Null) == null_text());
        assert(render(JsonValue::Str("sync"@)) == sync_tag()) by {
            reveal_strlit("sync");
            assert forall|i: int| 0 <= i < "sync"@.len() implies plain_char(#[trigger] "sync"@[i]) by {}
            lemma_escape_plain("sync"@);
        }
        assert forall|i: int| 0 <= i < ms.len() implies is_json(#[trigger] ms[i].1) by {
            if i == 2 || i == 3 || i == 6 {
                assert(render(JsonValue::Arr(seq![])) == ms[i].1);
            } else if i == 5 {
                assert(render(JsonValue::Null) == ms[i].1);
            } else if i == 7 {
                assert(render(JsonValue::Str("sync"@)) == ms[i].1);
            }
        }
        lemma_object_is_json(ms);
    }
}

/// What a request has gathered once every fetch and conversion succeeded.
pub struct SyncViews {
    pub profile: Profile,
    pub folders: Vec<FolderResponse>,
    pub ciphers_json: String,
}

/// The request succeeds exactly when the user exists, every fetch succeeded
/// and the stored data converts.
pub open spec fn sync_succeeds(
    user: Result<Option<User>, StoreFault>,
    folders: Result<Vec<Folder>, StoreFault>,
    ciphers: Result<(Vec<CipherRow>, Vec<AttachmentRow>), StoreFault>,
    with_attachments: bool,
) -> bool {
    &&& user matches Ok(Some(u)) && flag_ok(u.email_verified)
    &&& folders is Ok
    &&& ciphers matches Ok(c) && items_spliceable(c.0@, with_attachments)
}

/// Decides a sync request from the outcomes of its three fetches: the first
/// failure ends it, a missing user as `NotFound` and everything else as
/// `Internal`; otherwise the profile, the folder views and the vault-item
/// array are built.
pub fn sync_views(
    user: Result<Option<User>, StoreFault>,
    folders: Result<Vec<Folder>, StoreFault>,
    ciphers: Result<(Vec<CipherRow>, Vec<AttachmentRow>), StoreFault>,
    with_attachments: bool,
) -> (r: Result<SyncViews, AppError>)
    ensures
        r is Ok == sync_succeeds(user, folders, ciphers, with_attachments),
        r matches Err(e) ==> (e is NotFound <==> user matches Ok(None)),
        r matches Ok(v) ==> {
            &&& user matches Ok(Some(u)) && profile_of(u, v.profile)
            &&& folders matches Ok(fs) && v.folders@.len() == fs@.len() && forall|i: int|
                0 <= i < fs@.len() ==> folder_view_of(fs@[i], #[trigger] v.folders@[i])
            &&& ciphers matches Ok(c) && v.ciphers_json@ == array_text(
                item_texts(c.0@, c.1@, with_attachments),
            )
        },
{
    let u = match user {
        Err(_) => {
            return Err(AppError::Internal);
        },
        Ok(None) => {
            return Err(AppError::NotFound(String::from_str("User not found")));
        },
        Ok(Some(u)) => u,
    };
    let fs = match folders {
        Err(_) => {
            return Err(AppError::Internal);
        },
        Ok(fs) => fs,
    };
    let views = folder_views(&fs);
    let (rows, atts) = match ciphers {
        Err(_) => {
            return Err(AppError::Internal);
        },
        Ok(c) => c,
    };
    let ciphers_json = match cipher_array(&rows, &atts, with_attachments) {
        Err(e) => {
            return Err(e);
        },
        Ok(t) => t,
    };
    let profile = match Profile::from_user(u) {
        Err(e) => {
            return Err(e);
        },
        Ok(p) => p,
    };
    Ok(SyncViews { profile, folders: views, ciphers_json })
}

/// Finishes a request from the serialized profile and folders: `Internal`
/// when either could not be serialized, otherwise the composed snapshot.
pub fn finish_snapshot(
    profile_json: Option<String>,
    folder_jsons: Option<Vec<String>>,
    ciphers_json: &str,
) -> (r: Result<RawJson, AppError>)
    ensures
        r is Ok == (profile_json is Some && folder_jsons is Some),
        r matches Err(e) ==> e is Internal,
        r matches Ok(body) ==> body.0@ == snapshot_text(
            profile_json.unwrap()@,
            array_text(texts(folder_jsons.unwrap()@)),
            ciphers_json@,
        ),
{
    match (profile_json, folder_jsons) {
        (Some(p), Some(fs)) => Ok(RawJson(compose_snapshot(p.as_str(), &fs, ciphers_json))),
        _ => Err(AppError::Internal),
    }
}

/// With no folders, the folders member is the empty array.
pub proof fn lemma_no_folders(profile: Seq<char>, ciphers: Seq<char>)
    ensures
        snapshot_members(profile, array_text(texts(Seq::<String>::empty())), ciphers)[1].1
            == empty_array(),
{
    reveal_strlit("[]");
    assert(texts(Seq::<String>::empty()) =~= Seq::<Seq<char>>::empty());
    assert(array_text(Seq::<Seq<char>>::empty()) =~= empty_array());
}

/// With no vault items, the vault-item array is exactly `[]`, whatever the
/// attachments and the flag.
pub proof fn lemma_no_items(atts: Seq<AttachmentRow>, with_attachments: bool)
    ensures
        array_text(item_texts(Seq::<CipherRow>::empty(), atts, with_attachments)) == empty_array(),
{
    reveal_strlit("[]");
    assert(array_text(item_texts(Seq::<CipherRow>::empty(), atts, with_attachments))
        =~= empty_array());
}

/// Reading a snapshot back gives the profile and the folders that went in:
/// when the spliced texts are the renderings of a profile value, of folder
/// values and of a vault-item value, the snapshot is the rendering of an
/// object whose `profile` member is that profile value and whose `folders`
/// member is the array of those folder values.
pub proof fn lemma_round_trip(profile: JsonValue, folders: Seq<JsonValue>, ciphers: JsonValue)
    ensures
        ({
            let doc = JsonValue::Obj(
                seq![
                    ("profile"@, profile),
                    ("folders"@, JsonValue::Arr(folders)),
                    ("collections"@, JsonValue::Arr(seq![])),
                    ("policies"@, JsonValue::Arr(seq![])),
                    ("ciphers"@, ciphers),
                    ("domains"@, JsonValue::Null),
                    ("sends"@, JsonValue::Arr(seq![])),
                    ("object"@, JsonValue::Str("sync"@)),
                ],
            );
            &&& render(doc) == snapshot_text(
                render(profile),
                array_text(render_items(folders)),
                render(ciphers),
            )
            &&& doc->Obj_0[0] == ("profile"@, profile)
            &&& doc->Obj_0[1] == ("folders"@, JsonValue::Arr(folders))
        }),
{
    let vals = seq![
        ("profile"@, profile),
        ("folders"@, JsonValue::Arr(folders)),
        ("collections"@, JsonValue::Arr(seq![])),
        ("policies"@, JsonValue::Arr(seq![])),
        ("ciphers"@, ciphers),
        ("domains"@, JsonValue::Null),
        ("sends"@, JsonValue::Arr(seq![])),
        ("object"@, JsonValue::Str("sync"@)),
    ];
    let ms = snapshot_members(render(profile), array_text(render_items(folders)), render(ciphers));
    reveal_strlit("[]");
    reveal_strlit("null");
    reveal_strlit("\"sync\"");
    assert(render(JsonValue::Arr(seq![])) == empty_array()) by {
        assert(render_items(seq![]) =~= Seq::<Seq<char>>::empty());
    }
    assert(render(JsonValue::Null) == null_text());
    assert(render(JsonValue::Str("sync"@)) == sync_tag()) by {
        reveal_strlit("sync");
        assert forall|i: int| 0 <= i < "sync"@.len() implies plain_char(#[trigger] "sync"@[i]) by {}
        lemma_escape_plain("sync"@);
    }
    assert forall|i: int| 0 <= i < vals.len() implies (#[trigger] vals[i]).0 == ms[i].0 && render(
        vals[i].1,
    ) == ms[i].1 by {}
    lemma_render_members(vals, ms);
}

} // verus!
