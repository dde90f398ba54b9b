//! The addresses of the HTTP interface, and what its replies amount to.
use vstd::prelude::*;

use crate::json::Json;
use crate::json_parse::{self, parse_json};
use crate::text::{self, signed_decimal_text};
use crate::weaviate::schema::{self, check_batch_reply};

verus! {

/// A reply of the server: its status as a number and as it is shown, and the text of its body.
pub struct HttpReply {
    pub code: u16,
    pub status_shown: String,
    pub body: String,
}

/// Whether a status is one of success.
pub open spec fn succeeds(code: u16) -> bool {
    200 <= code < 300
}

/// Whether the reply is one of success.
pub fn is_success(reply: &HttpReply) -> (r: bool)
    ensures
        r == succeeds(reply.code),
{
    200 <= reply.code && reply.code < 300
}

/// The address of a class.
pub fn class_url(base_url: &str, class_name: &str) -> (r: String)
    ensures
        r@ == base_url@ + "/v1/schema/"@ + class_name@,
{
    let mut r: String = base_url.to_owned();
    r.append("/v1/schema/");
    r.append(class_name);
    r
}

/// The address that new classes are sent to.
pub fn schema_url(base_url: &str) -> (r: String)
    ensures
        r@ == base_url@ + "/v1/schema"@,
{
    let mut r: String = base_url.to_owned();
    r.append("/v1/schema");
    r
}

/// The address that batches of objects are sent to.
pub fn batch_url(base_url: &str) -> (r: String)
    ensures
        r@ == base_url@ + "/v1/batch/objects"@,
{
    let mut r: String = base_url.to_owned();
    r.append("/v1/batch/objects");
    r
}

/// The address that queries are sent to.
pub fn graphql_url(base_url: &str) -> (r: String)
    ensures
        r@ == base_url@ + "/v1/graphql"@,
{
    let mut r: String = base_url.to_owned();
    r.append("/v1/graphql");
    r
}

/// The header that a key is sent in.
pub fn authorization(api_key: &str) -> (r: String)
    ensures
        r@ == "Bearer "@ + api_key@,
{
    let mut r: String = "Bearer ".to_owned();
    r.append(api_key);
    r
}

/// What is said of a reply that is no success.
pub open spec fn refusal(intro: Seq<char>, reply: HttpReply) -> Seq<char> {
    intro + reply.status_shown@ + " "@ + reply.body@
}

/// What is said of a reply that is no success.
fn new_refusal(intro: &str, reply: &HttpReply) -> (r: String)
    ensures
        r@ == refusal(intro@, *reply),
{
    let mut r: String = intro.to_owned();
    r.append(reply.status_shown.as_str());
    r.append(" ");
    r.append(reply.body.as_str());
    r
}

/// Checks the reply to the removal of a class. A class that was not there is removed.
pub fn check_class_deleted(reply: &HttpReply) -> (r: Result<(), String>)
    ensures
        succeeds(reply.code) || reply.code == 404 ==> r is Ok,
        !succeeds(reply.code) && reply.code != 404 ==> (r matches Err(e) && e@ == refusal(
            "Failed to delete class: "@,
            *reply,
        )),
{
    if is_success(reply) || reply.code == 404 {
        Ok(())
    } else {
        Err(new_refusal("Failed to delete class: ", reply))
    }
}

/// Checks the reply to the creation of a class.
pub fn check_class_created(reply: &HttpReply) -> (r: Result<(), String>)
    ensures
        succeeds(reply.code) ==> r is Ok,
        !succeeds(reply.code) ==> (r matches Err(e) && e@ == refusal(
            "Failed to create class: "@,
            *reply,
        )),
{
    if is_success(reply) {
        Ok(())
    } else {
        Err(new_refusal("Failed to create class: ", reply))
    }
}

/// What is said of a text that is no JSON.
pub(crate) fn new_unparsable(intro: &str, e: &str) -> (r: String)
    ensures
        r@ == intro@ + e@,
{
    let mut r: String = intro.to_owned();
    r.append(e);
    r
}

/// The class whose breadth is to be changed, as a reply brings it.
pub fn read_class(class_name: &str, reply: &HttpReply) -> (r: Result<Json, String>)
    ensures
        !succeeds(reply.code) ==> (r matches Err(e) && e@ == refusal(
            "Failed to GET class "@ + class_name@ + " for ef update: "@,
            *reply,
        )),
        succeeds(reply.code) ==> match json_parse::parsed_json(reply.body@) {
            Ok(v) => r matches Ok(j) && j@ == v,
            Err(e) => r matches Err(m) && m@ == "Failed to parse class JSON for ef update: "@ + e,
        },
{
    if !is_success(reply) {
        let mut intro: String = "Failed to GET class ".to_owned();
        intro.append(class_name);
        intro.append(" for ef update: ");
        return Err(new_refusal(intro.as_str(), reply));
    }
    match parse_json(reply.body.as_str()) {
        Ok(class) => Ok(class),
        Err(e) => Err(new_unparsable("Failed to parse class JSON for ef update: ", e.as_str())),
    }
}

/// Checks the reply to the change of a class's breadth.
pub fn check_class_updated(ef: i64, reply: &HttpReply) -> (r: Result<(), String>)
    ensures
        succeeds(reply.code) ==> r is Ok,
        !succeeds(reply.code) ==> (r matches Err(e) && e@ == refusal(
            "Failed to update vectorIndexConfig ef="@ + text::signed_decimal(ef as int) + ": "@,
            *reply,
        )),
{
    if is_success(reply) {
        Ok(())
    } else {
        let mut intro: String = "Failed to update vectorIndexConfig ef=".to_owned();
        intro.append(signed_decimal_text(ef).as_str());
        intro.append(": ");
        Err(new_refusal(intro.as_str(), reply))
    }
}

/// Checks the reply to a batch of objects. Objects that were not stored are listed in its body, where
/// that is JSON, though the reply is one of success.
pub fn check_batch_stored(reply: &HttpReply) -> (r: Result<(), String>)
    ensures
        !succeeds(reply.code) ==> (r matches Err(e) && e@ == refusal(
            "Batch upload error: "@,
            *reply,
        )),
        succeeds(reply.code) ==> match json_parse::parsed_json(reply.body@) {
            Err(_) => r is Ok,
            Ok(v) => match schema::failed_import(v) {
                None => r is Ok,
                Some(object) => r matches Err(e) && e@ == schema::import_text(object),
            },
        },
{
    if !is_success(reply) {
        return Err(new_refusal("Batch upload error: ", reply));
    }
    match parse_json(reply.body.as_str()) {
        Ok(v) => check_batch_reply(&v),
        Err(_) => Ok(()),
    }
}

/// Checks the reply to a query.
pub fn check_query_answered(reply: &HttpReply) -> (r: Result<(), String>)
    ensures
        succeeds(reply.code) ==> r is Ok,
        !succeeds(reply.code) ==> (r matches Err(e) && e@ == refusal(
            "GraphQL search error: "@,
            *reply,
        )),
{
    if is_success(reply) {
        Ok(())
    } else {
        Err(new_refusal("GraphQL search error: ", reply))
    }
}

} // verus!
