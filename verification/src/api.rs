//! The web API: addresses, what is sent, and how replies are read.
use vstd::prelude::*;

use crate::decimal::{parse_whole, whole, LIMIT};
use crate::fixed::int_of;
use crate::json::{
    as_number, as_text, json_at, json_node, node_of, number_in, text_in, Node, NodeView,
};
use crate::series::Series;
use crate::text::{
    chars_of, dec, ends, owned, prefixed, push_dec, same, string_of, text_of, trim_end_matches,
    without_suffixes,
};

verus! {

pub const DEFAULT_API_URL: &'static str = "https://thermalstats.com/api/submissions";

/// Why a request failed.
#[derive(Debug, Clone)]
pub enum ApiError {
    /// Could not reach the server (offline, DNS, TLS, timeout…)
    Connection(String),
    /// The server answered with an error; `message` is its explanation.
    Rejected { status: u16, message: String },
}

/// An error's contents.
pub ghost enum ApiErrorView {
    Connection(Seq<char>),
    Rejected { status: u16, message: Seq<char> },
}

impl View for ApiError {
    type V = ApiErrorView;

    open spec fn view(&self) -> ApiErrorView {
        match *self {
            ApiError::Connection(s) => ApiErrorView::Connection(s@),
            ApiError::Rejected { status, message } => ApiErrorView::Rejected {
                status,
                message: message@,
            },
        }
    }
}

impl ApiErrorView {
    /// The error as it is shown.
    pub open spec fn shown(self) -> Seq<char> {
        match self {
            ApiErrorView::Connection(s) => s,
            ApiErrorView::Rejected { status, message } => message + " (HTTP "@ + dec(
                status as nat,
            ) + ")"@,
        }
    }
}

impl ApiError {
    /// The error as it is shown.
    pub fn text(&self) -> (r: String)
        ensures
            r@ == self@.shown(),
    {
        match self {
            ApiError::Connection(s) => s.clone(),
            ApiError::Rejected { status, message } => {
                let mut r = String::new();
                r.append(message.as_str());
                r.append(" (HTTP ");
                push_dec(&mut r, *status as u64);
                r.append(")");
                assert(r@ =~= self@.shown());
                r
            },
        }
    }
}

// ---------------------------------------------------------------------------
// Addresses

/// The site that an API address belongs to.
pub open spec fn root_of(api_url: Seq<char>) -> Seq<char> {
    without_suffixes(without_suffixes(api_url, "/"@), "/api/submissions"@)
}

/// The site of an address is what stands in front of its path, whether or not a
/// slash closes it.
pub proof fn lemma_root(site: Seq<char>)
    requires
        !ends(site, "/api/submissions"@),
    ensures
        root_of(site + "/api/submissions"@) == site,
        root_of(site + "/api/submissions"@ + "/"@) == site,
{
    reveal_strlit("/api/submissions");
    reveal_strlit("/");
    let path = "/api/submissions"@;
    let slash = "/"@;
    let url = site + path;
    assert(!ends(url, slash)) by {
        if ends(url, slash) {
            assert(url.subrange(url.len() - 1, url.len() as int)[0] == url.last());
            assert(url.last() == path[path.len() - 1]);
        }
    }
    assert(without_suffixes(url, slash) == url);
    let closed = url + slash;
    assert(closed.subrange(closed.len() - 1, closed.len() as int) =~= slash);
    assert(closed.take(closed.len() - 1) =~= url);
    assert(without_suffixes(closed, slash) == url);
    assert(url.subrange(url.len() - path.len(), url.len() as int) =~= path);
    assert(url.take(url.len() - path.len()) =~= site);
    reveal_with_fuel(without_suffixes, 2);
    assert(without_suffixes(url, path) == site);
}

/// Site root derived from the `--api-url` flag, which points at the
/// submissions endpoint.
pub fn site_root(api_url: &str) -> (r: String)
    ensures
        r@ == root_of(api_url@),
{
    trim_end_matches(trim_end_matches(api_url, "/").as_str(), "/api/submissions")
}

/// The address of a page: English has no prefix, other locales do.
pub open spec fn page(site: Seq<char>, locale: Seq<char>, path: Seq<char>) -> Seq<char> {
    if locale == "en"@ {
        site + path
    } else {
        site + "/"@ + locale + path
    }
}

/// English pages stand at the site itself, those of other languages below their
/// code.
pub proof fn lemma_pages(site: Seq<char>, locale: Seq<char>, path: Seq<char>)
    ensures
        page(site, "en"@, path) == site + path,
        locale != "en"@ ==> page(site, locale, path) == site + "/"@ + locale + path,
{
}

/// Localised page URL: English has no prefix, other locales do ("/fr/support").
pub fn page_url(site: &str, locale: &str, path: &str) -> (r: String)
    ensures
        r@ == page(site@, locale@, path@),
{
    let mut r = String::new();
    r.append(site);
    if !same(locale, "en") {
        r.append("/");
        r.append(locale);
    }
    r.append(path);
    assert(r@ =~= page(site@, locale@, path@));
    r
}

/// Where results are submitted.
pub fn submissions_url(site: &str) -> (r: String)
    ensures
        r@ == site@ + "/api/submissions"@,
{
    prefixed(site, "/api/submissions")
}

/// Where results are compared.
pub fn compare_url(site: &str) -> (r: String)
    ensures
        r@ == site@ + "/api/compare"@,
{
    prefixed(site, "/api/compare")
}

/// Where feedback is sent.
pub fn feedback_url(site: &str) -> (r: String)
    ensures
        r@ == site@ + "/api/feedback"@,
{
    prefixed(site, "/api/feedback")
}

/// Where debug logs are sent.
pub fn debug_logs_url(site: &str) -> (r: String)
    ensures
        r@ == site@ + "/api/debug-logs"@,
{
    prefixed(site, "/api/debug-logs")
}

// ---------------------------------------------------------------------------
// Replies

/// A status of success.
pub open spec fn success(status: u16) -> bool {
    200 <= status < 300
}

/// What is said of a reply that makes no sense.
pub open spec fn unexpected() -> ApiErrorView {
    ApiErrorView::Connection("Unexpected response from ThermalStats"@)
}

/// The explanation of a refusal: what the reply says under "error", else its
/// first 200 characters.
pub open spec fn explanation(text: Seq<char>, error: Option<NodeView>) -> Seq<char> {
    match as_text(error) {
        Some(s) => s,
        None => if text.len() > 200 {
            text.take(200)
        } else {
            text
        },
    }
}

/// Why a reply is an error, if it is: a status without success, or a text that
/// is not JSON.  `whole` and `error` are what stands in the text as a whole
/// and under "error".
pub open spec fn reply_error(
    status: u16,
    text: Seq<char>,
    whole: Option<NodeView>,
    error: Option<NodeView>,
) -> Option<ApiErrorView> {
    if !success(status) {
        Some(ApiErrorView::Rejected { status, message: explanation(text, error) })
    } else if whole is None {
        Some(unexpected())
    } else {
        None
    }
}

/// Why a reply is an error, if it is.
pub open spec fn failure(status: u16, text: Seq<char>) -> Option<ApiErrorView> {
    reply_error(status, text, json_node(text, ""@), json_node(text, "/error"@))
}

/// The contents of an optional error.
pub open spec fn error_of(e: Option<ApiError>) -> Option<ApiErrorView> {
    match e {
        Some(x) => Some(x@),
        None => None,
    }
}

fn unexpected_reply() -> (r: ApiError)
    ensures
        r@ == unexpected(),
{
    ApiError::Connection(owned("Unexpected response from ThermalStats"))
}

/// Tells whether a reply is an error, given what stands in its text as a whole
/// and under "error".
pub fn check_reply(status: u16, text: &str, whole: Option<Node>, error: Option<Node>) -> (r: Option<
    ApiError,
>)
    ensures
        error_of(r) == reply_error(status, text@, node_of(whole), node_of(error)),
{
    if status < 200 || status >= 300 {
        let message = match text_in(error) {
            Some(s) => s,
            None => {
                let cs: Vec<char> = chars_of(text);
                let n: usize = if cs.len() > 200 {
                    200
                } else {
                    cs.len()
                };
                let part = vstd::slice::slice_subrange(cs.as_slice(), 0, n);
                assert(part@ =~= if text@.len() > 200 {
                    text@.take(200)
                } else {
                    text@
                });
                string_of(part)
            },
        };
        return Some(ApiError::Rejected { status, message });
    }
    if whole.is_none() {
        return Some(unexpected_reply());
    }
    None
}

fn check_text(status: u16, text: &str) -> (r: Option<ApiError>)
    ensures
        error_of(r) == failure(status, text@),
{
    check_reply(status, text, json_at(text, ""), json_at(text, "/error"))
}

/// A request that got no reply.
pub fn unreachable(reason: &str) -> (r: ApiError)
    ensures
        r@ == ApiErrorView::Connection("Could not reach ThermalStats: "@ + reason@),
{
    ApiError::Connection(prefixed("Could not reach ThermalStats: ", reason))
}

/// A result that was submitted.
#[derive(Debug, Clone)]
pub struct Submitted {
    pub id: String,
    /// The baseline the server linked this result to (None if it refused the link).
    pub baseline_id: Option<String>,
}

/// The id in a reply.
pub open spec fn id_in(id: Option<NodeView>) -> Result<Seq<char>, ApiErrorView> {
    match as_text(id) {
        Some(s) => Ok(s),
        None => Err(unexpected()),
    }
}

/// Reads the id of what was created.
pub fn id_of(id: Option<Node>) -> (r: Result<String, ApiError>)
    ensures
        match r {
            Ok(s) => id_in(node_of(id)) == Ok::<Seq<char>, ApiErrorView>(s@),
            Err(e) => id_in(node_of(id)) == Err::<Seq<char>, ApiErrorView>(e@),
        },
{
    match text_in(id) {
        Some(s) => Ok(s),
        None => Err(unexpected_reply()),
    }
}

/// The id that a reply gives.
pub open spec fn reply_id(status: u16, text: Seq<char>) -> Result<Seq<char>, ApiErrorView> {
    match failure(status, text) {
        Some(e) => Err(e),
        None => id_in(json_node(text, "/id"@)),
    }
}

/// Reads the reply to a submission: the new result's ID.
pub fn submit_results(status: u16, text: &str) -> (r: Result<Submitted, ApiError>)
    ensures
        match r {
            Ok(s) => reply_id(status, text@) == Ok::<Seq<char>, ApiErrorView>(s.id@) && text_of(
                s.baseline_id,
            ) == as_text(json_node(text@, "/baselineId"@)),
            Err(e) => reply_id(status, text@) == Err::<Seq<char>, ApiErrorView>(e@),
        },
{
    match check_text(status, text) {
        Some(e) => {
            return Err(e);
        },
        None => {},
    }
    match id_of(json_at(text, "/id")) {
        Ok(id) => Ok(Submitted { id, baseline_id: text_in(json_at(text, "/baselineId")) }),
        Err(e) => Err(e),
    }
}

/// Reads the reply to feedback.
pub fn send_feedback(status: u16, text: &str) -> (r: Result<(), ApiError>)
    ensures
        match r {
            Ok(_) => failure(status, text@) is None,
            Err(e) => failure(status, text@) == Some(e@),
        },
{
    match check_text(status, text) {
        Some(e) => Err(e),
        None => Ok(()),
    }
}

/// Reads the reply to a diagnostics log: its ID (viewable at /debug/{id}).
pub fn submit_debug_log(status: u16, text: &str) -> (r: Result<String, ApiError>)
    ensures
        match r {
            Ok(s) => reply_id(status, text@) == Ok::<Seq<char>, ApiErrorView>(s@),
            Err(e) => reply_id(status, text@) == Err::<Seq<char>, ApiErrorView>(e@),
        },
{
    match check_text(status, text) {
        Some(e) => Err(e),
        None => id_of(json_at(text, "/id")),
    }
}

/// A reply without success is always an error with its status; nothing is
/// taken from it as a result.
pub proof fn lemma_refused_is_an_error(status: u16, text: Seq<char>)
    requires
        !success(status),
    ensures
        failure(status, text) is Some,
        failure(status, text)->0 is Rejected,
        failure(status, text)->0->status == status,
        reply_id(status, text) == Err::<Seq<char>, ApiErrorView>(failure(status, text)->0),
{
}

/// A reply counts as accepted exactly with a status from 200 to 299 and JSON in
/// it, and gives the identity of the result exactly where it then has one.
pub proof fn lemma_accepted(status: u16, text: Seq<char>)
    ensures
        failure(status, text) is None <==> 200 <= status <= 299 && json_node(text, ""@) is Some,
        failure(status, text) is Some && 200 <= status <= 299 ==> failure(status, text)->0
            is Connection,
        reply_id(status, text) is Ok <==> 200 <= status <= 299 && json_node(text, ""@) is Some
            && as_text(json_node(text, "/id"@)) is Some,
        reply_id(status, text) is Ok ==> as_text(json_node(text, "/id"@)) == Some(
            reply_id(status, text)->Ok_0,
        ),
{
}

/// A refusal is explained by the server's own words, else by the beginning of its
/// reply.
pub proof fn lemma_explanation(text: Seq<char>, error: Option<NodeView>)
    ensures
        as_text(error) is Some ==> explanation(text, error) == as_text(error)->0,
        as_text(error) is None ==> explanation(text, error).len() <= 200 && explanation(text, error)
            == text.take(explanation(text, error).len() as int) && (text.len() <= 200
            ==> explanation(text, error) == text),
{
    assert(text.take(text.len() as int) =~= text);
}

// ---------------------------------------------------------------------------
// Comparison

/// Percentile among the exact model's results.
#[derive(Debug, Clone, Copy)]
pub struct Standing {
    /// Share of results hotter than this one, 0–100.
    pub cooler_than: i64,
    /// Share of results cooler than this one, 0–100.
    pub hotter_than: i64,
    pub count: u64,
}

/// How others with the same part fare.
#[derive(Debug, Clone)]
pub struct CompareEntry {
    pub model: Option<String>,
    pub count: Option<u64>,
    /// "exact", "similar" or "manufacturer"
    pub scope: Option<String>,
    pub avg_load: Option<i64>,
    /// Percentile among the exact model's results (enough data).
    pub standing: Option<Standing>,
}

/// How this result compares with others for the same hardware.
#[derive(Debug, Clone)]
pub struct Comparison {
    pub cpu: Option<CompareEntry>,
    pub gpu: Option<CompareEntry>,
}

/// An entry's contents.
pub ghost struct EntryView {
    pub model: Option<Seq<char>>,
    pub count: Option<int>,
    pub scope: Option<Seq<char>>,
    pub avg_load: Option<int>,
    pub standing: Option<(int, int, int)>,
}

impl View for CompareEntry {
    type V = EntryView;

    open spec fn view(&self) -> EntryView {
        EntryView {
            model: text_of(self.model),
            count: match self.count {
                Some(n) => Some(n as int),
                None => None,
            },
            scope: text_of(self.scope),
            avg_load: int_of(self.avg_load),
            standing: match self.standing {
                Some(s) => Some((s.cooler_than as int, s.hotter_than as int, s.count as int)),
                None => None,
            },
        }
    }
}

impl CompareEntry {
    /// The average is within the limits of numbers that are read.
    pub open spec fn wf(self) -> bool {
        self.avg_load is Some ==> -LIMIT <= self.avg_load->0 <= LIMIT
    }
}

impl Comparison {
    /// The entries' averages are within limits.
    pub open spec fn wf(self) -> bool {
        &&& self.cpu is Some ==> self.cpu->0.wf()
        &&& self.gpu is Some ==> self.gpu->0.wf()
    }
}

/// A field that may be left out: what it holds if it is there, or that it is
/// of the wrong kind.
pub ghost enum Field<T> {
    Missing,
    Value(T),
    Wrong,
}

/// A field with a text.
pub open spec fn text_field(n: Option<NodeView>) -> Field<Seq<char>> {
    match n {
        None | Some(NodeView::Null) => Field::Missing,
        Some(NodeView::Text(s)) => Field::Value(s),
        _ => Field::Wrong,
    }
}

/// A field with a number, in millionths.
pub open spec fn number_field(n: Option<NodeView>) -> Field<int> {
    match n {
        None | Some(NodeView::Null) => Field::Missing,
        Some(NodeView::Number(_)) => match as_number(n) {
            Some(v) => Field::Value(v),
            None => Field::Wrong,
        },
        _ => Field::Wrong,
    }
}

/// A field with a count.
pub open spec fn count_field(n: Option<NodeView>) -> Field<int> {
    match n {
        None | Some(NodeView::Null) => Field::Missing,
        Some(NodeView::Number(s)) => match whole(s, u64::MAX as int) {
            Some(v) => Field::Value(v),
            None => Field::Wrong,
        },
        _ => Field::Wrong,
    }
}

impl<T> Field<T> {
    /// What the field holds, if anything.
    pub open spec fn option(self) -> Option<T> {
        match self {
            Field::Value(x) => Some(x),
            _ => None,
        }
    }
}

/// The values that an entry is read from.
pub struct EntryNodes {
    pub whole: Option<Node>,
    pub model: Option<Node>,
    pub count: Option<Node>,
    pub scope: Option<Node>,
    pub avg_load: Option<Node>,
    pub standing: Option<Node>,
    pub cooler_than: Option<Node>,
    pub hotter_than: Option<Node>,
    pub standing_count: Option<Node>,
}

/// The contents of those values.
pub ghost struct EntryParts {
    pub whole: Option<NodeView>,
    pub model: Option<NodeView>,
    pub count: Option<NodeView>,
    pub scope: Option<NodeView>,
    pub avg_load: Option<NodeView>,
    pub standing: Option<NodeView>,
    pub cooler_than: Option<NodeView>,
    pub hotter_than: Option<NodeView>,
    pub standing_count: Option<NodeView>,
}

impl View for EntryNodes {
    type V = EntryParts;

    open spec fn view(&self) -> EntryParts {
        EntryParts {
            whole: node_of(self.whole),
            model: node_of(self.model),
            count: node_of(self.count),
            scope: node_of(self.scope),
            avg_load: node_of(self.avg_load),
            standing: node_of(self.standing),
            cooler_than: node_of(self.cooler_than),
            hotter_than: node_of(self.hotter_than),
            standing_count: node_of(self.standing_count),
        }
    }
}

/// A value that can hold so many fields: an object, which names them, or a list
/// of as many.
pub open spec fn shaped(n: Option<NodeView>, fields: nat) -> bool {
    n == Some(NodeView::Object) || n == Some(NodeView::List(fields))
}

/// A value that is not there.
pub open spec fn absent(n: Option<NodeView>) -> bool {
    n is None || n == Some(NodeView::Null)
}

/// Where a field of a value stands: under its name in an object, at its place
/// in a list.
pub open spec fn field_path(
    whole: Option<NodeView>,
    at: Seq<char>,
    name: Seq<char>,
    index: Seq<char>,
) -> Seq<char> {
    at + if whole is Some && whole->0 is List {
        index
    } else {
        name
    }
}

fn is_shaped(n: &Option<Node>, fields: usize) -> (r: bool)
    ensures
        r == shaped(node_of(*n), fields as nat),
{
    match n {
        Some(Node::Object) => true,
        Some(Node::List(k)) => *k == fields,
        _ => false,
    }
}

fn is_absent(n: &Option<Node>) -> (r: bool)
    ensures
        r == absent(node_of(*n)),
{
    match n {
        None => true,
        Some(Node::Null) => true,
        _ => false,
    }
}

fn path_of(whole: &Option<Node>, at: &str, name: &str, index: &str) -> (r: String)
    ensures
        r@ == field_path(node_of(*whole), at@, name@, index@),
{
    match whole {
        Some(Node::List(_)) => prefixed(at, index),
        _ => prefixed(at, name),
    }
}

/// A standing: both shares and the count must be there.
pub open spec fn standing_field(e: EntryParts) -> Field<(int, int, int)> {
    if absent(e.standing) {
        Field::Missing
    } else if shaped(e.standing, 3) {
        match (
            number_field(e.cooler_than),
            number_field(e.hotter_than),
            count_field(e.standing_count),
        ) {
            (Field::Value(a), Field::Value(b), Field::Value(c)) => Field::Value((a, b, c)),
            _ => Field::Wrong,
        }
    } else {
        Field::Wrong
    }
}

/// An entry: none of its fields may be of the wrong kind.
pub open spec fn entry_field(e: EntryParts) -> Field<EntryView> {
    let model = text_field(e.model);
    let count = count_field(e.count);
    let scope = text_field(e.scope);
    let avg_load = number_field(e.avg_load);
    let standing = standing_field(e);
    if absent(e.whole) {
        Field::Missing
    } else if !shaped(e.whole, 5) || model is Wrong || count is Wrong || scope is Wrong
        || avg_load is Wrong || standing is Wrong {
        Field::Wrong
    } else {
        Field::Value(
            EntryView {
                model: model.option(),
                count: count.option(),
                scope: scope.option(),
                avg_load: avg_load.option(),
                standing: standing.option(),
            },
        )
    }
}

/// A field as read: missing, a value, or of the wrong kind.
pub enum ReadField<T> {
    Missing,
    Value(T),
    Wrong,
}

fn read_text(n: Option<Node>) -> (r: ReadField<String>)
    ensures
        match r {
            ReadField::Missing => text_field(node_of(n)) is Missing,
            ReadField::Value(s) => text_field(node_of(n)) == Field::Value(s@),
            ReadField::Wrong => text_field(node_of(n)) is Wrong,
        },
{
    match n {
        None | Some(Node::Null) => ReadField::Missing,
        Some(Node::Text(s)) => ReadField::Value(s),
        _ => ReadField::Wrong,
    }
}

fn read_number(n: Option<Node>) -> (r: ReadField<i64>)
    ensures
        match r {
            ReadField::Missing => number_field(node_of(n)) is Missing,
            ReadField::Value(v) => number_field(node_of(n)) == Field::Value(v as int) && -LIMIT
                <= v <= LIMIT,
            ReadField::Wrong => number_field(node_of(n)) is Wrong,
        },
{
    match n {
        None | Some(Node::Null) => ReadField::Missing,
        Some(Node::Number(s)) => match number_in(Some(Node::Number(s))) {
            Some(v) => ReadField::Value(v),
            None => ReadField::Wrong,
        },
        _ => ReadField::Wrong,
    }
}

fn read_count(n: Option<Node>) -> (r: ReadField<u64>)
    ensures
        match r {
            ReadField::Missing => count_field(node_of(n)) is Missing,
            ReadField::Value(v) => count_field(node_of(n)) == Field::Value(v as int),
            ReadField::Wrong => count_field(node_of(n)) is Wrong,
        },
{
    match n {
        None | Some(Node::Null) => ReadField::Missing,
        Some(Node::Number(s)) => match parse_whole(
            chars_of(s.as_str()).as_slice(),
            0xffff_ffff_ffff_ffff,
        ) {
            Some(v) => ReadField::Value(v),
            None => ReadField::Wrong,
        },
        _ => ReadField::Wrong,
    }
}

fn read_standing(
    whole: &Option<Node>,
    cooler_than: Option<Node>,
    hotter_than: Option<Node>,
    count: Option<Node>,
    Ghost(e): Ghost<EntryParts>,
) -> (r: ReadField<Standing>)
    requires
        e.standing == node_of(*whole),
        e.cooler_than == node_of(cooler_than),
        e.hotter_than == node_of(hotter_than),
        e.standing_count == node_of(count),
    ensures
        match r {
            ReadField::Missing => standing_field(e) is Missing,
            ReadField::Value(v) => standing_field(e) == Field::Value(
                (v.cooler_than as int, v.hotter_than as int, v.count as int),
            ),
            ReadField::Wrong => standing_field(e) is Wrong,
        },
{
    if is_absent(whole) {
        return ReadField::Missing;
    }
    if !is_shaped(whole, 3) {
        return ReadField::Wrong;
    }
    match (read_number(cooler_than), read_number(hotter_than), read_count(count)) {
        (
            ReadField::Value(cooler_than),
            ReadField::Value(hotter_than),
            ReadField::Value(count),
        ) => ReadField::Value(Standing { cooler_than, hotter_than, count }),
        _ => ReadField::Wrong,
    }
}

fn option_of<T>(f: ReadField<T>) -> (r: Option<T>)
    ensures
        r == (match f {
            ReadField::Value(v) => Some(v),
            _ => None,
        }),
{
    match f {
        ReadField::Value(v) => Some(v),
        _ => None,
    }
}

/// Reads an entry.
pub fn read_entry(e: EntryNodes) -> (r: ReadField<CompareEntry>)
    ensures
        match r {
            ReadField::Missing => entry_field(e@) is Missing,
            ReadField::Value(v) => entry_field(e@) == Field::Value(v@) && v.wf(),
            ReadField::Wrong => entry_field(e@) is Wrong,
        },
{
    let ghost parts = e@;
    if is_absent(&e.whole) {
        return ReadField::Missing;
    }
    if !is_shaped(&e.whole, 5) {
        return ReadField::Wrong;
    }
    let model = read_text(e.model);
    let count = read_count(e.count);
    let scope = read_text(e.scope);
    let avg_load = read_number(e.avg_load);
    let standing = read_standing(
        &e.standing,
        e.cooler_than,
        e.hotter_than,
        e.standing_count,
        Ghost(parts),
    );
    if matches!(model, ReadField::Wrong) || matches!(count, ReadField::Wrong) || matches!(
        scope,
        ReadField::Wrong
    ) || matches!(avg_load, ReadField::Wrong) || matches!(standing, ReadField::Wrong) {
        return ReadField::Wrong;
    }
    ReadField::Value(
        CompareEntry {
            model: option_of(model),
            count: option_of(count),
            scope: option_of(scope),
            avg_load: option_of(avg_load),
            standing: option_of(standing),
        },
    )
}

/// The values that stand in a document at a place.
pub open spec fn parts_in(doc: Seq<char>, at: Seq<char>) -> EntryParts {
    let whole = json_node(doc, at);
    let below = field_path(whole, at, "/standing"@, "/4"@);
    let standing = json_node(doc, below);
    EntryParts {
        whole,
        model: json_node(doc, field_path(whole, at, "/model"@, "/0"@)),
        count: json_node(doc, field_path(whole, at, "/count"@, "/1"@)),
        scope: json_node(doc, field_path(whole, at, "/scope"@, "/2"@)),
        avg_load: json_node(doc, field_path(whole, at, "/avgLoad"@, "/3"@)),
        standing,
        cooler_than: json_node(doc, field_path(standing, below, "/coolerThan"@, "/0"@)),
        hotter_than: json_node(doc, field_path(standing, below, "/hotterThan"@, "/1"@)),
        standing_count: json_node(doc, field_path(standing, below, "/count"@, "/2"@)),
    }
}

fn entry_nodes(doc: &str, at: &str) -> (r: EntryNodes)
    ensures
        r@ == parts_in(doc@, at@),
{
    let whole = json_at(doc, at);
    let below = path_of(&whole, at, "/standing", "/4");
    let standing = json_at(doc, below.as_str());
    let model = json_at(doc, path_of(&whole, at, "/model", "/0").as_str());
    let count = json_at(doc, path_of(&whole, at, "/count", "/1").as_str());
    let scope = json_at(doc, path_of(&whole, at, "/scope", "/2").as_str());
    let avg_load = json_at(doc, path_of(&whole, at, "/avgLoad", "/3").as_str());
    let cooler_than = json_at(
        doc,
        path_of(&standing, below.as_str(), "/coolerThan", "/0").as_str(),
    );
    let hotter_than = json_at(
        doc,
        path_of(&standing, below.as_str(), "/hotterThan", "/1").as_str(),
    );
    let standing_count = json_at(doc, path_of(&standing, below.as_str(), "/count", "/2").as_str());
    EntryNodes {
        whole,
        model,
        count,
        scope,
        avg_load,
        standing,
        cooler_than,
        hotter_than,
        standing_count,
    }
}

/// The contents of an optional entry.
pub open spec fn entry_of(e: Option<CompareEntry>) -> Option<EntryView> {
    match e {
        Some(x) => Some(x@),
        None => None,
    }
}

/// What a document says of both parts: it must hold two fields, and they
/// entries or be left out.
pub open spec fn compared(doc: Seq<char>) -> Option<(Option<EntryView>, Option<EntryView>)> {
    let whole = json_node(doc, ""@);
    let cpu = entry_field(parts_in(doc, field_path(whole, ""@, "/cpu"@, "/0"@)));
    let gpu = entry_field(parts_in(doc, field_path(whole, ""@, "/gpu"@, "/1"@)));
    if !shaped(whole, 2) || cpu is Wrong || gpu is Wrong {
        None
    } else {
        Some((cpu.option(), gpu.option()))
    }
}

/// A comparison tells of each part what stands at it, and nothing where anything
/// in it is not of the kind that it should be.
pub proof fn lemma_compared_parts(doc: Seq<char>)
    requires
        json_node(doc, ""@) == Some(NodeView::Object),
        json_node(doc, ""@ + "/cpu"@) == Some(NodeView::Object),
        json_node(doc, ""@ + "/gpu"@) == Some(NodeView::Object),
        compared(doc) is Some,
    ensures
        ({
            let (cpu, gpu) = compared(doc)->0;
            let c = ""@ + "/cpu"@;
            let g = ""@ + "/gpu"@;
            &&& cpu is Some && gpu is Some
            &&& cpu->0.model == as_text(json_node(doc, c + "/model"@))
            &&& gpu->0.model == as_text(json_node(doc, g + "/model"@))
            &&& cpu->0.scope == as_text(json_node(doc, c + "/scope"@))
            &&& gpu->0.scope == as_text(json_node(doc, g + "/scope"@))
            &&& cpu->0.avg_load == as_number(json_node(doc, c + "/avgLoad"@))
            &&& gpu->0.avg_load == as_number(json_node(doc, g + "/avgLoad"@))
            &&& cpu->0.standing is Some && json_node(doc, c + "/standing"@) == Some(
                NodeView::Object,
            ) ==> as_number(json_node(doc, c + "/standing"@ + "/coolerThan"@)) == Some(
                (cpu->0.standing->0).0,
            )
            &&& gpu->0.standing is Some && json_node(doc, g + "/standing"@) == Some(
                NodeView::Object,
            ) ==> as_number(json_node(doc, g + "/standing"@ + "/coolerThan"@)) == Some(
                (gpu->0.standing->0).0,
            )
        }),
{
}

impl Comparison {
    /// Reads a comparison.
    pub fn parse(doc: &str) -> (r: Option<Comparison>)
        ensures
            match r {
                Some(c) => compared(doc@) == Some((entry_of(c.cpu), entry_of(c.gpu))) && c.wf(),
                None => compared(doc@) is None,
            },
    {
        let whole = json_at(doc, "");
        if !is_shaped(&whole, 2) {
            return None;
        }
        let cpu_at = path_of(&whole, "", "/cpu", "/0");
        let cpu = match read_entry(entry_nodes(doc, cpu_at.as_str())) {
            ReadField::Value(e) => Some(e),
            ReadField::Missing => None,
            ReadField::Wrong => {
                return None;
            },
        };
        let gpu_at = path_of(&whole, "", "/gpu", "/1");
        let gpu = match read_entry(entry_nodes(doc, gpu_at.as_str())) {
            ReadField::Value(e) => Some(e),
            ReadField::Missing => None,
            ReadField::Wrong => {
                return None;
            },
        };
        Some(Comparison { cpu, gpu })
    }
}

/// Reads the reply to a comparison.  Where its fields do not fit, `misfit` says
/// what is wrong with them.
pub fn compare(status: u16, text: &str, misfit: &str) -> (r: Result<Comparison, ApiError>)
    ensures
        match r {
            Ok(c) => failure(status, text@) is None && compared(text@) == Some(
                (entry_of(c.cpu), entry_of(c.gpu)),
            ) && c.wf(),
            Err(e) => match failure(status, text@) {
                Some(f) => e@ == f,
                None => compared(text@) is None && e@ == ApiErrorView::Connection(misfit@),
            },
        },
{
    match check_text(status, text) {
        Some(e) => {
            return Err(e);
        },
        None => {},
    }
    match Comparison::parse(text) {
        Some(c) => Ok(c),
        None => Err(ApiError::Connection(owned(misfit))),
    }
}

// ---------------------------------------------------------------------------
// What is sent

/// A result to submit.
#[derive(Debug, Clone)]
pub struct SubmissionPayload {
    pub test_type: String,
    pub stress_method: String,
    pub cpu_model: Option<String>,
    pub cpu_cores: Option<i32>,
    pub cpu_threads: Option<i32>,
    pub gpu_model: Option<String>,
    pub gpu_vram: Option<String>,
    pub os: Option<String>,
    pub device_type: Option<String>,
    pub laptop_model: Option<String>,
    pub cooling_type: Option<String>,
    pub cooling_model: Option<String>,
    pub ambient_temp: Option<i64>,
    pub cpu_temp_idle: Option<i64>,
    pub cpu_temp_load: Option<i64>,
    pub gpu_temp_idle: Option<i64>,
    pub gpu_temp_load: Option<i64>,
    pub cpu_usage_max: Option<i64>,
    pub gpu_usage_max: Option<i64>,
    /// In seconds.
    pub test_duration: Option<i64>,
    pub cli_version: Option<String>,
    pub session_id: Option<String>,
    /// The run's temperature/load curve.
    pub series: Option<Series>,
    /// Before/after: an earlier result from this machine this run re-tests.
    pub baseline_id: Option<String>,
    /// What changed since the baseline.
    pub change_type: Option<String>,
}

/// A result to compare.
#[derive(Debug, Clone)]
pub struct CompareRequest {
    pub test_type: String,
    pub cpu_model: Option<String>,
    pub gpu_model: Option<String>,
    pub cpu_temp_load: Option<i64>,
    pub cpu_temp_idle: Option<i64>,
    pub gpu_temp_load: Option<i64>,
    pub gpu_temp_idle: Option<i64>,
    /// The result just submitted, left out of the comparison.
    pub result_id: Option<String>,
}

/// Feedback to send.
#[derive(Debug, Clone)]
pub struct FeedbackPayload {
    /// 1–5, or none
    pub rating: Option<u8>,
    /// "bug", "idea", "praise" or "other"
    pub category: String,
    pub message: String,
    pub email: Option<String>,
    pub cli_version: String,
    pub os: Option<String>,
    pub cpu_model: Option<String>,
    pub gpu_model: Option<String>,
    pub locale: String,
    /// Screen the feedback was sent from ("home", "results", …)
    pub context: String,
    /// Optional system summary (sensor sources, last test) the user agreed to include.
    pub diagnostics: Option<String>,
    pub session_id: Option<String>,
}

/// A diagnostics log to send.
#[derive(Debug, Clone)]
pub struct DebugLogPayload {
    pub log: String,
    pub cpu_model: Option<String>,
    pub gpu_model: Option<String>,
    pub os: Option<String>,
    pub cli_version: Option<String>,
}

} // verus!
