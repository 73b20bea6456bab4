//! Submitting a result to an address of its own, without the rest of the API.
use vstd::prelude::*;

use crate::json::{as_text, json_at, json_node, node_of, text_in, Node, NodeView};
use crate::text::{dec, owned, prefixed, push_dec};

verus! {

/// Why a submission failed.
#[derive(Debug, Clone)]
pub enum SubmitError {
    Connection(String),
    ApiRejected { status: u16, message: String },
}

/// An error's contents.
pub ghost enum SubmitErrorView {
    Connection(Seq<char>),
    ApiRejected { status: u16, message: Seq<char> },
}

impl View for SubmitError {
    type V = SubmitErrorView;

    open spec fn view(&self) -> SubmitErrorView {
        match *self {
            SubmitError::Connection(s) => SubmitErrorView::Connection(s@),
            SubmitError::ApiRejected { status, message } => SubmitErrorView::ApiRejected {
                status,
                message: message@,
            },
        }
    }
}

impl SubmitErrorView {
    /// The error as it is shown.
    pub open spec fn shown(self) -> Seq<char> {
        match self {
            SubmitErrorView::Connection(s) => s,
            SubmitErrorView::ApiRejected { status, message } => "HTTP "@ + dec(status as nat)
                + ": "@ + message,
        }
    }
}

impl SubmitError {
    /// The error as it is shown.
    pub fn text(&self) -> (r: String)
        ensures
            r@ == self@.shown(),
    {
        match self {
            SubmitError::Connection(s) => s.clone(),
            SubmitError::ApiRejected { status, message } => {
                let mut r = String::new();
                r.append("HTTP ");
                push_dec(&mut r, *status as u64);
                r.append(": ");
                r.append(message.as_str());
                assert(r@ =~= self@.shown());
                r
            },
        }
    }
}

/// The reply to a submission.
#[derive(Debug, Clone)]
pub struct SubmissionResponse {
    pub id: String,
}

/// A reply with success as it was read into its fields: the id, or what is
/// wrong with it.
pub open spec fn reply_view(parsed: Result<SubmissionResponse, String>) -> Result<
    Seq<char>,
    Seq<char>,
> {
    match parsed {
        Ok(s) => Ok(s.id@),
        Err(e) => Err(e@),
    }
}

/// What a reply means: the id of one with success, or what is wrong with it;
/// else a refusal, explained by what stands under "error" or by the whole
/// reply.
pub open spec fn outcome(
    status: u16,
    body: Seq<char>,
    parsed: Result<Seq<char>, Seq<char>>,
    error: Option<NodeView>,
) -> Result<Seq<char>, SubmitErrorView> {
    if !(200 <= status < 300) {
        Err(
            SubmitErrorView::ApiRejected {
                status,
                message: match as_text(error) {
                    Some(s) => s,
                    None => body,
                },
            },
        )
    } else {
        match parsed {
            Ok(id) => Ok(id),
            Err(e) => Err(SubmitErrorView::Connection("Failed to parse API response: "@ + e)),
        }
    }
}

/// A submission succeeds exactly with a status from 200 to 299 and a reply that
/// can be read, and then gives the reply's identity.  Any other status is a
/// refusal, with the server's own words where there are any.
pub proof fn lemma_submitted(
    status: u16,
    body: Seq<char>,
    parsed: Result<Seq<char>, Seq<char>>,
    error: Option<NodeView>,
)
    ensures
        ({
            let r = outcome(status, body, parsed, error);
            &&& r is Ok <==> 200 <= status <= 299 && parsed is Ok
            &&& r is Ok ==> r->Ok_0 == parsed->Ok_0
            &&& r is Err ==> (r->Err_0 is ApiRejected <==> status < 200 || status > 299)
            &&& r is Err && r->Err_0 is ApiRejected ==> r->Err_0->status == status
                && r->Err_0->message == if as_text(error) is Some {
                as_text(error)->0
            } else {
                body
            }
        }),
{
}

/// Tells what a reply means, given its fields and what stands in it under
/// "error".
pub fn read_reply(
    status: u16,
    body: &str,
    parsed: Result<SubmissionResponse, String>,
    error: Option<Node>,
) -> (r: Result<String, SubmitError>)
    ensures
        match r {
            Ok(id) => outcome(status, body@, reply_view(parsed), node_of(error)) == Ok::<
                Seq<char>,
                SubmitErrorView,
            >(id@),
            Err(e) => outcome(status, body@, reply_view(parsed), node_of(error)) == Err::<
                Seq<char>,
                SubmitErrorView,
            >(e@),
        },
{
    if status < 200 || status >= 300 {
        let message = match text_in(error) {
            Some(s) => s,
            None => owned(body),
        };
        return Err(SubmitError::ApiRejected { status, message });
    }
    match parsed {
        Ok(s) => Ok(s.id),
        Err(e) => Err(
            SubmitError::Connection(prefixed("Failed to parse API response: ", e.as_str())),
        ),
    }
}

/// Reads the reply to a submission: the new result's ID.  A reply with success
/// comes with its fields, or with what the reading of them stumbled on.
pub fn submit_results(
    status: u16,
    body: &str,
    parsed: Result<SubmissionResponse, String>,
) -> (r: Result<String, SubmitError>)
    ensures
        ({
            let meant = outcome(status, body@, reply_view(parsed), json_node(body@, "/error"@));
            match r {
                Ok(id) => meant == Ok::<Seq<char>, SubmitErrorView>(id@),
                Err(e) => meant == Err::<Seq<char>, SubmitErrorView>(e@),
            }
        }),
{
    let error = json_at(body, "/error");
    read_reply(status, body, parsed, error)
}

/// A submission that got no reply.
pub fn unreachable(reason: &str) -> (r: SubmitError)
    ensures
        r@ == SubmitErrorView::Connection("Failed to connect to ThermalStats API: "@ + reason@),
{
    SubmitError::Connection(prefixed("Failed to connect to ThermalStats API: ", reason))
}

} // verus!
