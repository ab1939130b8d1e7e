use sync_snapshot::ciphers::{attachments_for, cipher_array, embed_attachments, AttachmentRow, CipherRow};
use sync_snapshot::error::{AppError, StoreFault};
use sync_snapshot::json::frame_array;
use sync_snapshot::models::{folder_views, Folder, Profile, User};
use sync_snapshot::sync::{compose_snapshot, finish_snapshot, sync_views};

fn s(x: &str) -> String {
    x.to_string()
}

fn user(flag: i64) -> User {
    User {
        id: s("u1"),
        name: Some(s("Ann")),
        email: s("ann@example.com"),
        email_verified: flag,
        master_password_hint: None,
        key: s("k"),
        private_key: s("pk"),
        security_stamp: s("st"),
    }
}

fn folder(id: &str, name: &str, updated: &str) -> Folder {
    Folder {
        id: s(id),
        user_id: s("u1"),
        name: s(name),
        created_at: s("2024-01-01"),
        updated_at: s(updated),
    }
}

fn cipher(id: &str, json: &str) -> CipherRow {
    CipherRow { id: s(id), json: s(json) }
}

fn attachment(cipher_id: &str, json: &str) -> AttachmentRow {
    AttachmentRow { cipher_id: s(cipher_id), json: s(json) }
}

#[test]
fn frame_array_of_nothing_is_empty_array() {
    assert_eq!(frame_array(&vec![]), "[]");
}

#[test]
fn frame_array_keeps_order_and_text() {
    assert_eq!(frame_array(&vec![s("{\"a\":1}"), s("2"), s("\"x\"")]), "[{\"a\":1},2,\"x\"]");
}

#[test]
fn embed_into_empty_object() {
    assert_eq!(embed_attachments("{}", "[]"), Some(s("{\"attachments\":[]}")));
}

#[test]
fn embed_into_object_with_members() {
    assert_eq!(
        embed_attachments("{\"id\":\"c1\"}", "[{\"f\":1}]"),
        Some(s("{\"id\":\"c1\",\"attachments\":[{\"f\":1}]}"))
    );
}

#[test]
fn embed_refuses_non_object() {
    assert_eq!(embed_attachments("[1]", "[]"), None);
    assert_eq!(embed_attachments("{", "[]"), None);
    assert_eq!(embed_attachments("", "[]"), None);
}

#[test]
fn attachments_are_picked_by_item() {
    let atts = vec![attachment("c1", "{\"n\":1}"), attachment("c2", "{\"n\":2}"), attachment("c1", "{\"n\":3}")];
    assert_eq!(attachments_for(&s("c1"), &atts), vec![s("{\"n\":1}"), s("{\"n\":3}")]);
    assert!(attachments_for(&s("c9"), &atts).is_empty());
}

#[test]
fn no_items_give_empty_array_either_way() {
    let atts = vec![attachment("c1", "{}")];
    assert_eq!(cipher_array(&vec![], &atts, true).unwrap(), "[]");
    assert_eq!(cipher_array(&vec![], &atts, false).unwrap(), "[]");
}

#[test]
fn items_without_attachments_stay_as_stored() {
    let cs = vec![cipher("c1", "{\"id\":\"c1\"}"), cipher("c2", "{\"id\":\"c2\"}")];
    let atts = vec![attachment("c1", "{\"n\":1}")];
    assert_eq!(cipher_array(&cs, &atts, false).unwrap(), "[{\"id\":\"c1\"},{\"id\":\"c2\"}]");
}

#[test]
fn items_with_attachments_get_their_own() {
    let cs = vec![cipher("c1", "{\"id\":\"c1\"}"), cipher("c2", "{}")];
    let atts = vec![attachment("c1", "{\"n\":1}")];
    assert_eq!(
        cipher_array(&cs, &atts, true).unwrap(),
        "[{\"id\":\"c1\",\"attachments\":[{\"n\":1}]},{\"attachments\":[]}]"
    );
}

#[test]
fn malformed_item_with_attachments_is_internal() {
    let cs = vec![cipher("c1", "oops")];
    assert!(matches!(cipher_array(&cs, &vec![], true), Err(AppError::Internal)));
    assert_eq!(cipher_array(&cs, &vec![], false).unwrap(), "[oops]");
}

#[test]
fn profile_from_user_maps_flag() {
    let p = Profile::from_user(user(1)).unwrap();
    assert!(p.email_verified);
    assert_eq!(p.email, "ann@example.com");
    assert_eq!(p.name, Some(s("Ann")));
    assert!(!Profile::from_user(user(0)).unwrap().email_verified);
}

#[test]
fn profile_from_malformed_user_is_internal() {
    assert!(matches!(Profile::from_user(user(7)), Err(AppError::Internal)));
}

#[test]
fn folder_views_keep_order() {
    let v = folder_views(&vec![folder("f2", "Work", "2024-03-01"), folder("f1", "Home", "2024-02-01")]);
    assert_eq!(v.len(), 2);
    assert_eq!(v[0].id, "f2");
    assert_eq!(v[0].revision_date, "2024-03-01");
    assert_eq!(v[1].name, "Home");
    assert_eq!(v[1].object, "folder");
}

#[test]
fn missing_user_is_not_found() {
    let r = sync_views(Ok(None), Ok(vec![]), Ok((vec![], vec![])), false);
    assert!(matches!(r, Err(AppError::NotFound(_))));
}

#[test]
fn user_lookup_failure_is_internal() {
    let r = sync_views(Err(StoreFault), Ok(vec![]), Ok((vec![], vec![])), false);
    assert!(matches!(r, Err(AppError::Internal)));
}

#[test]
fn folder_failure_is_internal_after_profile() {
    let r = sync_views(Ok(Some(user(1))), Err(StoreFault), Ok((vec![], vec![])), false);
    assert!(matches!(r, Err(AppError::Internal)));
}

#[test]
fn cipher_failure_is_internal() {
    let r = sync_views(Ok(Some(user(1))), Ok(vec![]), Err(StoreFault), true);
    assert!(matches!(r, Err(AppError::Internal)));
}

#[test]
fn malformed_profile_is_internal() {
    let r = sync_views(Ok(Some(user(3))), Ok(vec![]), Ok((vec![], vec![])), false);
    assert!(matches!(r, Err(AppError::Internal)));
}

#[test]
fn successful_views() {
    let cs = vec![cipher("c1", "{\"id\":\"c1\"}")];
    let r = sync_views(Ok(Some(user(1))), Ok(vec![folder("f1", "Home", "d")]), Ok((cs, vec![])), true)
        .unwrap();
    assert_eq!(r.profile.id, "u1");
    assert_eq!(r.folders.len(), 1);
    assert_eq!(r.ciphers_json, "[{\"id\":\"c1\",\"attachments\":[]}]");
}

#[test]
fn snapshot_with_nothing_in_it() {
    let out = compose_snapshot("{\"id\":\"u1\"}", &vec![], "[]");
    assert_eq!(
        out,
        "{\"profile\":{\"id\":\"u1\"},\"folders\":[],\"collections\":[],\"policies\":[],\"ciphers\":[],\"domains\":null,\"sends\":[],\"object\":\"sync\"}"
    );
}

#[test]
fn snapshot_splices_fragments_verbatim() {
    let out = compose_snapshot("{}", &vec![s("{\"id\":\"f1\"}"), s("{\"id\":\"f2\"}")], "[{\"x\":\"a\\\"b\"}]");
    assert_eq!(
        out,
        "{\"profile\":{},\"folders\":[{\"id\":\"f1\"},{\"id\":\"f2\"}],\"collections\":[],\"policies\":[],\"ciphers\":[{\"x\":\"a\\\"b\"}],\"domains\":null,\"sends\":[],\"object\":\"sync\"}"
    );
}

#[test]
fn snapshot_parses_to_eight_members() {
    let out = compose_snapshot("{\"id\":\"u1\",\"name\":null}", &vec![s("{\"id\":\"f1\",\"name\":\"Home\"}")], "[{\"id\":\"c1\"}]");
    let v: serde_json::Value = serde_json::from_str(&out).unwrap();
    let o = v.as_object().unwrap();
    assert_eq!(o.len(), 8);
    assert_eq!(o["collections"], serde_json::Value::Array(vec![]));
    assert_eq!(o["policies"], serde_json::Value::Array(vec![]));
    assert_eq!(o["sends"], serde_json::Value::Array(vec![]));
    assert!(o["domains"].is_null());
    assert_eq!(o["object"], serde_json::Value::String(s("sync")));
    assert_eq!(serde_json::to_string(&o["profile"]).unwrap(), "{\"id\":\"u1\",\"name\":null}");
    assert_eq!(serde_json::to_string(&o["folders"]).unwrap(), "[{\"id\":\"f1\",\"name\":\"Home\"}]");
}

#[test]
fn serialization_failure_is_internal() {
    assert!(matches!(finish_snapshot(None, Some(vec![]), "[]"), Err(AppError::Internal)));
    assert!(matches!(finish_snapshot(Some(s("{}")), None, "[]"), Err(AppError::Internal)));
}

#[test]
fn finished_snapshot_is_the_composed_text() {
    let r = finish_snapshot(Some(s("{}")), Some(vec![]), "[]").unwrap();
    assert_eq!(
        r.0,
        "{\"profile\":{},\"folders\":[],\"collections\":[],\"policies\":[],\"ciphers\":[],\"domains\":null,\"sends\":[],\"object\":\"sync\"}"
    );
}
