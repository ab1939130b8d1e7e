//! Vault items kept as pre-serialized JSON: the storage layer hands over each
//! item's object text and each attachment's object text, and this module
//! splices them into one array without parsing either.
use vstd::prelude::*;
use vstd::string::*;
use crate::error::AppError;
use crate::json::{
    array_text, frame_array, is_json, lemma_array_is_json, lemma_escape_plain, member_text,
    object_shaped, plain_char, texts, with_member,
};

verus! {

/// One vault item as stored: its identifier and its JSON object text.
pub struct CipherRow {
    pub id: String,
    pub json: String,
}

/// One attachment as stored: the item it belongs to and its JSON object text.
pub struct AttachmentRow {
    pub cipher_id: String,
    pub json: String,
}

/// The name of the member that holds an item's attachments.
pub open spec fn attachments_key() -> Seq<char> {
    "attachments"@
}

/// The texts of the attachments that belong to the item `id`, in storage order.
pub open spec fn attachment_texts(atts: Seq<AttachmentRow>, id: Seq<char>) -> Seq<Seq<char>>
    decreases atts.len(),
{
    if atts.len() == 0 {
        seq![]
    } else {
        let rest = attachment_texts(atts.drop_last(), id);
        if atts.last().cipher_id@ == id {
            rest.push(atts.last().json@)
        } else {
            rest
        }
    }
}

/// The text an item takes in the output: as stored, or with its attachments
/// written in as one more member.
pub open spec fn item_text(c: CipherRow, atts: Seq<AttachmentRow>, with_attachments: bool) -> Seq<char> {
    if with_attachments {
        with_member(c.json@, member_text(attachments_key(), array_text(attachment_texts(atts, c.id@))))
    } else {
        c.json@
    }
}

pub open spec fn item_texts(cs: Seq<CipherRow>, atts: Seq<AttachmentRow>, with_attachments: bool) -> Seq<
    Seq<char>,
>
    decreases cs.len(),
{
    if cs.len() == 0 {
        seq![]
    } else {
        item_texts(cs.drop_last(), atts, with_attachments).push(item_text(cs.last(), atts, with_attachments))
    }
}

/// Every item can take an attachments member: needed only when they are included.
pub open spec fn items_spliceable(cs: Seq<CipherRow>, with_attachments: bool) -> bool {
    with_attachments ==> forall|i: int| 0 <= i < cs.len() ==> object_shaped(#[trigger] cs[i].json@)
}

/// The texts of the attachments of one item, found in the batch fetched for
/// all items, in storage order.
pub fn attachments_for(cipher_id: &String, atts: &Vec<AttachmentRow>) -> (r: Vec<String>)
    ensures
        texts(r@) == attachment_texts(atts@, cipher_id@),
{
    let mut r: Vec<String> = Vec::new();
    let mut j: usize = 0;
    while j < atts.len()
        invariant
            j <= atts@.len(),
            texts(r@) == attachment_texts(atts@.take(j as int), cipher_id@),
        decreases atts@.len() - j,
    {
        assert(atts@.take(j as int + 1).drop_last() =~= atts@.take(j as int));
        if atts[j].cipher_id == *cipher_id {
            r.push(atts[j].json.clone());
            assert(texts(r@) =~= attachment_texts(atts@.take(j as int), cipher_id@).push(
                atts@[j as int].json@,
            ));
        }
        j = j + 1;
    }
    assert(atts@.take(j as int) =~= atts@);
    r
}

/// Writes `"attachments":` and the given array text as the last member of
/// an object text. `None` when the text is not braced like an object.
pub fn embed_attachments(object: &str, attachments: &str) -> (r: Option<String>)
    ensures
        r.is_some() == object_shaped(object@),
        r.is_some() ==> r.unwrap()@ == with_member(
            object@,
            member_text(attachments_key(), attachments@),
        ),
{
    let n = object.unicode_len();
    if n < 2 || object.get_char(0) != '{' || object.get_char(n - 1) != '}' {
        return None;
    }
    proof {
        reveal_strlit("attachments");
        reveal_strlit("{");
        reveal_strlit(",");
        reveal_strlit("}");
        reveal_strlit("\"attachments\":");
        assert forall|i: int| 0 <= i < attachments_key().len() implies plain_char(
            #[trigger] attachments_key()[i],
        ) by {}
        lemma_escape_plain(attachments_key());
    }
    let mut r: String;
    if n == 2 {
        r = String::from_str("{");
    } else {
        r = String::from_str(object.substring_char(0, n - 1));
        r.append(",");
    }
    r.append("\"attachments\":");
    r.append(attachments);
    r.append("}");
    assert(r@ =~= with_member(object@, member_text(attachments_key(), attachments@)));
    Some(r)
}

/// The vault-item array: each stored item in order, with its attachments
/// spliced in when `with_attachments` is set, framed as one JSON array. Fails with
/// `Internal` when an item must take attachments but is not braced like an
/// object. No items give `[]`.
pub fn cipher_array(ciphers: &Vec<CipherRow>, atts: &Vec<AttachmentRow>, with_attachments: bool) -> (r:
    Result<String, AppError>)
    ensures
        r.is_ok() == items_spliceable(ciphers@, with_attachments),
        r matches Ok(s) ==> s@ == array_text(item_texts(ciphers@, atts@, with_attachments)),
        r matches Err(e) ==> e is Internal,
{
    let mut items: Vec<String> = Vec::new();
    let mut i: usize = 0;
    while i < ciphers.len()
        invariant
            i <= ciphers@.len(),
            items_spliceable(ciphers@.take(i as int), with_attachments),
            texts(items@) == item_texts(ciphers@.take(i as int), atts@, with_attachments),
        decreases ciphers@.len() - i,
    {
        assert(ciphers@.take(i as int + 1).drop_last() =~= ciphers@.take(i as int));
        let c = &ciphers[i];
        if with_attachments {
            let own = attachments_for(&c.id, atts);
            let arr = frame_array(&own);
            match embed_attachments(c.json.as_str(), arr.as_str()) {
                Some(t) => {
                    items.push(t);
                },
                None => {
                    assert(!object_shaped(ciphers@[i as int].json@));
                    return Err(AppError::Internal);
                },
            }
        } else {
            items.push(c.json.clone());
        }
        assert(texts(items@) =~= item_texts(ciphers@.take(i as int + 1), atts@, with_attachments));
        i = i + 1;
    }
    assert(ciphers@.take(i as int) =~= ciphers@);
    Ok(frame_array(&items))
}

/// Without attachments every item is written exactly as stored, so the
/// array stays JSON whenever each stored item is.
pub proof fn lemma_items_without_attachments(cs: Seq<CipherRow>, atts: Seq<AttachmentRow>)
    ensures
        item_texts(cs, atts, false) == cs.map_values(|c: CipherRow| c.json@),
        (forall|i: int| 0 <= i < cs.len() ==> is_json(#[trigger] cs[i].json@)) ==> is_json(
            array_text(item_texts(cs, atts, false)),
        ),
    decreases cs.len(),
{
    if cs.len() > 0 {
        lemma_items_without_attachments(cs.drop_last(), atts);
        assert(cs.drop_last().map_values(|c: CipherRow| c.json@).push(cs.last().json@)
            =~= cs.map_values(|c: CipherRow| c.json@));
    }
    let ts = item_texts(cs, atts, false);
    if forall|i: int| 0 <= i < cs.len() ==> is_json(#[trigger] cs[i].json@) {
        assert forall|i: int| 0 <= i < ts.len() implies is_json(#[trigger] ts[i]) by {
            assert(ts[i] == cs[i].json@);
        }
        lemma_array_is_json(ts);
    }
}

} // verus!
