//! TargetProcess REST conventions: request URLs with `%20`-style query
//! encoding, skip-based pagination (TP caps a page at 1000 items), the query
//! clauses, and TP's `/Date(ms±HHMM)/` timestamps (written anchored to noon on
//! the target day, read back by the embedded offset). The HTTP exchange itself
//! is done by the application.
use crate::calendar::{
    local_hour_representable, local_hour_utc_millis, max_epoch_day, min_epoch_day,
    utc_date_of_timestamp, CivilDate,
};
use crate::text::{
    decimal, i64_text, parsed_i64, parse_i64, push_char, push_str, push_two_digits,
    signed_decimal, string_of, trim, trimmed, u64_text, zero_padded, chars_of,
};
use crate::json::{
    as_bool, as_i64, as_str, bool_of, field, field_in, get, get_in, int_of, json_parsed, lookup,
    number_text, number_text_of, text_of, Json,
};
use crate::models::WorkItem;
use vstd::prelude::*;

verus! {

/// Items per page; a shorter page is the last one.
pub const PAGE_SIZE: usize = 1000;

// ---------------------------------------------------------------------------
// Query encoding
// ---------------------------------------------------------------------------

/// Bytes left as they are in a query component (RFC 3986 unreserved).
pub open spec fn is_unreserved(b: u8) -> bool {
    (65 <= b <= 90) || (97 <= b <= 122) || (48 <= b <= 57) || b == 45 || b == 95 || b == 46
        || b == 126
}

pub open spec fn hex_digit(n: int) -> char {
    seq!['0', '1', '2', '3', '4', '5', '6', '7', '8', '9', 'A', 'B', 'C', 'D', 'E', 'F'][n]
}

/// The encoding of one byte: itself when unreserved, else `%XX` (upper hex).
pub open spec fn encoded_byte(b: u8) -> Seq<char> {
    if is_unreserved(b) {
        seq![b as char]
    } else {
        seq!['%', hex_digit(b as int / 16), hex_digit(b as int % 16)]
    }
}

pub open spec fn encoded_bytes(bs: Seq<u8>) -> Seq<char>
    decreases bs.len(),
{
    if bs.len() == 0 {
        Seq::empty()
    } else {
        encoded_bytes(bs.drop_last()) + encoded_byte(bs.last())
    }
}

/// Percent-encoding of the UTF-8 bytes of a text (spaces become `%20`).
pub open spec fn encoded(t: Seq<char>) -> Seq<char> {
    encoded_bytes(vstd::utf8::encode_utf8(t))
}

/// Percent-encodes a query component: unreserved bytes stay, every other
/// byte becomes `%XX` (so a space is `%20`, never `+`, which TP rejects).
pub fn enc(s: &str) -> (r: String)
    ensures
        r@ == encoded(s@),
{
    let hex = ['0', '1', '2', '3', '4', '5', '6', '7', '8', '9', 'A', 'B', 'C', 'D', 'E', 'F'];
    assert(hex@ =~= seq!['0', '1', '2', '3', '4', '5', '6', '7', '8', '9', 'A', 'B', 'C', 'D', 'E', 'F']);
    let bytes = s.as_bytes();
    let mut out = String::new();
    let mut i: usize = 0;
    while i < bytes.len()
        invariant
            i <= bytes@.len(),
            bytes@ == vstd::utf8::encode_utf8(s@),
            hex@ == seq!['0', '1', '2', '3', '4', '5', '6', '7', '8', '9', 'A', 'B', 'C', 'D', 'E', 'F'],
            out@ == encoded_bytes(bytes@.take(i as int)),
        decreases bytes.len() - i,
    {
        let b = bytes[i];
        assert(bytes@.take(i + 1).drop_last() =~= bytes@.take(i as int));
        if (65 <= b && b <= 90) || (97 <= b && b <= 122) || (48 <= b && b <= 57) || b == 45 || b
            == 95 || b == 46 || b == 126 {
            push_char(&mut out, b as char);
            assert(out@ =~= encoded_bytes(bytes@.take(i as int)) + encoded_byte(b));
        } else {
            push_char(&mut out, '%');
            push_char(&mut out, hex[(b / 16) as usize]);
            push_char(&mut out, hex[(b % 16) as usize]);
            assert(out@ =~= encoded_bytes(bytes@.take(i as int)) + encoded_byte(b));
        }
        i = i + 1;
    }
    assert(bytes@.take(bytes@.len() as int) =~= bytes@);
    out
}

/// A character an encoded component may hold: an unreserved ASCII
/// character, `%`, or an upper-case hex digit.
pub open spec fn is_encoded_char(c: char) -> bool {
    ('A' <= c <= 'Z') || ('a' <= c <= 'z') || ('0' <= c <= '9') || c == '-' || c == '_' || c
        == '.' || c == '~' || c == '%'
}

proof fn lemma_hex_digit(n: int)
    requires
        0 <= n < 16,
    ensures
        is_encoded_char(hex_digit(n)),
{
    if n < 10 {
        assert(('0' <= hex_digit(n) <= '9'));
    } else {
        assert(('A' <= hex_digit(n) <= 'Z'));
    }
}

proof fn lemma_unreserved_char(b: u8)
    requires
        is_unreserved(b),
    ensures
        is_encoded_char(b as char),
{
}

/// Encoded query components hold only unreserved characters, `%` and hex
/// digits: never a space, and never `+` (which TP would read as a space).
pub proof fn law_encoding_alphabet(bs: Seq<u8>)
    ensures
        forall|i: int| 0 <= i < encoded_bytes(bs).len() ==> is_encoded_char(#[trigger] encoded_bytes(bs)[i]),
    decreases bs.len(),
{
    if bs.len() > 0 {
        law_encoding_alphabet(bs.drop_last());
        let prev = encoded_bytes(bs.drop_last());
        let last = encoded_byte(bs.last());
        let b = bs.last();
        if is_unreserved(b) {
            lemma_unreserved_char(b);
        } else {
            lemma_hex_digit(b as int / 16);
            lemma_hex_digit(b as int % 16);
        }
        assert forall|i: int| 0 <= i < last.len() implies is_encoded_char(#[trigger] last[i]) by {}
        assert forall|i: int| 0 <= i < encoded_bytes(bs).len() implies is_encoded_char(
            #[trigger] encoded_bytes(bs)[i],
        ) by {
            if i < prev.len() {
                assert(encoded_bytes(bs)[i] == prev[i]);
            } else {
                assert(encoded_bytes(bs)[i] == last[i - prev.len()]);
            }
        }
    }
}

/// The value of a hex digit (either case), or -1.
pub open spec fn hex_value(c: char) -> int {
    if '0' <= c <= '9' {
        c as int - 48
    } else if 'A' <= c <= 'F' {
        c as int - 55
    } else if 'a' <= c <= 'f' {
        c as int - 87
    } else {
        -1
    }
}

/// Percent-decoding to bytes: `%XY` with two hex digits is the byte `0xXY`;
/// any other character stands for its UTF-8 bytes.
pub open spec fn percent_decoded(cs: Seq<char>) -> Seq<u8>
    decreases cs.len(),
{
    if cs.len() == 0 {
        Seq::empty()
    } else if cs.len() >= 3 && cs[0] == '%' && hex_value(cs[1]) >= 0 && hex_value(cs[2]) >= 0 {
        seq![(hex_value(cs[1]) * 16 + hex_value(cs[2])) as u8] + percent_decoded(
            cs.subrange(3, cs.len() as int),
        )
    } else {
        vstd::utf8::encode_utf8(seq![cs[0]]) + percent_decoded(cs.drop_first())
    }
}

proof fn lemma_hex_value(n: int)
    requires
        0 <= n < 16,
    ensures
        hex_value(hex_digit(n)) == n,
{
    let d = seq!['0', '1', '2', '3', '4', '5', '6', '7', '8', '9', 'A', 'B', 'C', 'D', 'E', 'F'];
    assert(hex_digit(n) == d[n]);
    if n == 0 {
    } else if n == 1 {
    } else if n == 2 {
    } else if n == 3 {
    } else if n == 4 {
    } else if n == 5 {
    } else if n == 6 {
    } else if n == 7 {
    } else if n == 8 {
    } else if n == 9 {
    } else if n == 10 {
    } else if n == 11 {
    } else if n == 12 {
    } else if n == 13 {
    } else if n == 14 {
    } else {
    }
}

proof fn lemma_encoded_bytes_cons(b: u8, rest: Seq<u8>)
    ensures
        encoded_bytes(seq![b] + rest) == encoded_byte(b) + encoded_bytes(rest),
    decreases rest.len(),
{
    if rest.len() == 0 {
        assert(seq![b] + rest =~= seq![b]);
        assert((seq![b] + rest).drop_last() =~= Seq::<u8>::empty());
        assert(encoded_bytes(Seq::<u8>::empty()) =~= Seq::<char>::empty());
        assert(encoded_byte(b) + encoded_bytes(rest) =~= encoded_byte(b));
    } else {
        lemma_encoded_bytes_cons(b, rest.drop_last());
        assert((seq![b] + rest).drop_last() =~= seq![b] + rest.drop_last());
        assert((seq![b] + rest).last() == rest.last());
        assert(encoded_bytes(seq![b] + rest) =~= encoded_byte(b) + encoded_bytes(rest));
    }
}

/// Percent-decoding an encoded byte string gives the bytes back.
proof fn lemma_percent_decoding(bs: Seq<u8>)
    ensures
        percent_decoded(encoded_bytes(bs)) == bs,
    decreases bs.len(),
{
    if bs.len() > 0 {
        let b = bs[0];
        let rest = bs.drop_first();
        assert(bs =~= seq![b] + rest);
        lemma_encoded_bytes_cons(b, rest);
        lemma_percent_decoding(rest);
        let e = encoded_bytes(bs);
        let tail = encoded_bytes(rest);
        if is_unreserved(b) {
            assert(e =~= seq![b as char] + tail);
            assert(e[0] == b as char);
            assert(e[0] != '%');
            assert(e.drop_first() =~= tail);
            lemma_ascii_encoding(seq![b as char]);
            assert(ascii_bytes(seq![b as char]) =~= seq![b]);
            assert(percent_decoded(e) =~= bs);
        } else {
            let h1 = hex_digit(b as int / 16);
            let h2 = hex_digit(b as int % 16);
            lemma_hex_value(b as int / 16);
            lemma_hex_value(b as int % 16);
            assert(e =~= seq!['%', h1, h2] + tail);
            assert(e.subrange(3, e.len() as int) =~= tail);
            assert((hex_value(h1) * 16 + hex_value(h2)) as u8 == b);
            assert(percent_decoded(e) =~= bs);
        }
    }
}

/// Percent-decoding what [`enc`] produces gives back the UTF-8 bytes of the
/// input, and so the input text itself.
pub proof fn law_encoding_decodes_back(s: Seq<char>)
    ensures
        percent_decoded(encoded(s)) == vstd::utf8::encode_utf8(s),
        vstd::utf8::decode_utf8(percent_decoded(encoded(s))) == s,
{
    lemma_percent_decoding(vstd::utf8::encode_utf8(s));
    vstd::utf8::encode_utf8_decode_utf8(s);
}

// ---------------------------------------------------------------------------
// Client configuration and URLs
// ---------------------------------------------------------------------------

/// `s` without its trailing `/` characters.
pub open spec fn without_trailing_slashes(s: Seq<char>) -> Seq<char>
    decreases s.len(),
{
    if s.len() > 0 && s.last() == '/' {
        without_trailing_slashes(s.drop_last())
    } else {
        s
    }
}

/// Where and as whom to talk to TargetProcess.
#[derive(Debug)]
pub struct TpConfig {
    pub base_url: String,
    pub token: String,
    pub my_user_id: i64,
}

impl TpConfig {
    /// The base URL is kept without trailing slashes.
    pub fn new(base_url: &str, token: &str, my_user_id: i64) -> (r: TpConfig)
        ensures
            r.base_url@ == without_trailing_slashes(base_url@),
            r.token@ == token@,
            r.my_user_id == my_user_id,
    {
        let cs = chars_of(base_url);
        let mut n: usize = cs.len();
        assert(cs@.take(n as int) =~= cs@);
        while n > 0 && cs[n - 1] == '/'
            invariant
                n <= cs.len(),
                without_trailing_slashes(cs@.take(n as int)) == without_trailing_slashes(cs@),
            decreases n,
        {
            assert(cs@.take(n as int).drop_last() =~= cs@.take(n - 1));
            n = n - 1;
        }
        let mut kept: Vec<char> = Vec::new();
        let mut i: usize = 0;
        while i < n
            invariant
                i <= n <= cs.len(),
                kept@ == cs@.take(i as int),
            decreases n - i,
        {
            kept.push(cs[i]);
            i = i + 1;
            assert(kept@ =~= cs@.take(i as int));
        }
        proof {
            assert(cs@.take(cs@.len() as int) =~= cs@);
        }
        TpConfig { base_url: string_of(&kept), token: token.to_owned(), my_user_id }
    }
}

/// `k=v` with both sides encoded.
pub open spec fn param_text(p: (Seq<char>, Seq<char>)) -> Seq<char> {
    encoded(p.0) + seq!['='] + encoded(p.1)
}

/// Parameters joined with `&`.
pub open spec fn query_text(ps: Seq<(Seq<char>, Seq<char>)>) -> Seq<char>
    decreases ps.len(),
{
    if ps.len() == 0 {
        Seq::empty()
    } else if ps.len() == 1 {
        param_text(ps[0])
    } else {
        query_text(ps.drop_last()) + seq!['&'] + param_text(ps.last())
    }
}

pub open spec fn pair_views(q: Seq<(String, String)>) -> Seq<(Seq<char>, Seq<char>)> {
    q.map_values(|p: (String, String)| (p.0@, p.1@))
}

/// Every request carries `format=json` and the access token first.
pub open spec fn all_params(token: Seq<char>, q: Seq<(String, String)>) -> Seq<(Seq<char>, Seq<char>)> {
    seq![("format"@, "json"@), ("access_token"@, token)] + pair_views(q)
}

/// `{base}/api/v1/{path}?{query}`.
pub open spec fn request_url(cfg: TpConfig, path: Seq<char>, q: Seq<(String, String)>) -> Seq<char> {
    cfg.base_url@ + "/api/v1/"@ + path + seq!['?'] + query_text(all_params(cfg.token@, q))
}

fn push_param(out: &mut String, k: &str, v: &str, first: bool)
    ensures
        final(out)@ == old(out)@ + (if first {
            Seq::empty()
        } else {
            seq!['&']
        }) + param_text((k@, v@)),
{
    if !first {
        push_char(out, '&');
    }
    let ek = enc(k);
    let ev = enc(v);
    push_str(out, ek.as_str());
    push_char(out, '=');
    push_str(out, ev.as_str());
    assert(final(out)@ =~= old(out)@ + (if first {
        Seq::empty()
    } else {
        seq!['&']
    }) + param_text((k@, v@)));
}

impl TpConfig {
    /// The full request URL for an API path and extra query parameters.
    pub fn url(&self, path: &str, query: &Vec<(String, String)>) -> (r: String)
        ensures
            r@ == request_url(*self, path@, query@),
    {
        let mut out = String::new();
        push_str(&mut out, self.base_url.as_str());
        push_str(&mut out, "/api/v1/");
        push_str(&mut out, path);
        push_char(&mut out, '?');
        let ghost head = out@;
        let ghost ps = all_params(self.token@, query@);
        push_param(&mut out, "format", "json", true);
        assert(ps.take(1) =~= seq![("format"@, "json"@)]);
        assert(out@ == head + query_text(ps.take(1)));
        push_param(&mut out, "access_token", self.token.as_str(), false);
        assert(ps.take(2).drop_last() =~= ps.take(1));
        assert(out@ =~= head + query_text(ps.take(2)));
        let mut i: usize = 0;
        while i < query.len()
            invariant
                i <= query.len(),
                ps == all_params(self.token@, query@),
                ps.len() == query.len() + 2,
                out@ == head + query_text(ps.take(i + 2)),
            decreases query.len() - i,
        {
            let (k, v) = &query[i];
            push_param(&mut out, k.as_str(), v.as_str(), false);
            assert(ps[i + 2] == (k@, v@));
            assert(ps.take(i + 3).drop_last() =~= ps.take(i + 2));
            i = i + 1;
            assert(out@ =~= head + query_text(ps.take(i + 2)));
        }
        assert(ps.take(query.len() + 2) =~= ps);
        out
    }
}

fn pair(k: &str, v: String) -> (r: (String, String))
    ensures
        r.0@ == k@,
        r.1 == v,
{
    (k.to_owned(), v)
}

// ---------------------------------------------------------------------------
// Pagination
// ---------------------------------------------------------------------------

/// The query of one page: the caller's parameters, then `take` and `skip`.
pub fn page_query(query: &Vec<(String, String)>, skip: usize) -> (r: Vec<(String, String)>)
    ensures
        pair_views(r@) == pair_views(query@) + seq![
            ("take"@, "1000"@),
            ("skip"@, decimal(skip as nat)),
        ],
{
    let mut q: Vec<(String, String)> = Vec::new();
    let mut i: usize = 0;
    while i < query.len()
        invariant
            i <= query.len(),
            q@.len() == i,
            forall|j: int| 0 <= j < i ==> (#[trigger] q@[j]).0@ == query@[j].0@ && q@[j].1@ == query@[j].1@,
        decreases query.len() - i,
    {
        let item = &query[i];
        q.push((item.0.clone(), item.1.clone()));
        i = i + 1;
    }
    let n = q.len();
    q.push(pair("take", "1000".to_owned()));
    q.push(pair("skip", u64_text(skip as u64)));
    assert(pair_views(q@) =~= pair_views(query@) + seq![
        ("take"@, "1000"@),
        ("skip"@, decimal(skip as nat)),
    ]) by {
        assert forall|j: int| 0 <= j < n implies #[trigger] pair_views(q@)[j] == pair_views(query@)[j] by {
        }
    }
    q
}

/// After a page of `n` items fetched at `skip`: the next page's skip, or
/// `None` when this page was the last (shorter than a full page, or empty).
pub fn next_skip(skip: usize, n: usize) -> (r: Option<usize>)
    requires
        n >= PAGE_SIZE ==> skip + PAGE_SIZE <= usize::MAX,
    ensures
        r == if n < PAGE_SIZE || n == 0 {
            None::<usize>
        } else {
            Some((skip + PAGE_SIZE) as usize)
        },
{
    if n < PAGE_SIZE || n == 0 {
        None
    } else {
        Some(skip + PAGE_SIZE)
    }
}

// ---------------------------------------------------------------------------
// Query clauses and paths
// ---------------------------------------------------------------------------

/// `AssignedUser.Id eq {id}`, narrowed to the current sprint when asked.
pub fn assigned_where(my_user_id: i64, current_sprint_only: bool) -> (r: String)
    ensures
        r@ == "AssignedUser.Id eq "@ + signed_decimal(my_user_id as int) + (if current_sprint_only {
            " and (TeamIteration.IsCurrent eq 'true')"@
        } else {
            Seq::empty()
        }),
{
    let mut w = String::new();
    push_str(&mut w, "AssignedUser.Id eq ");
    let id = i64_text(my_user_id);
    push_str(&mut w, id.as_str());
    if current_sprint_only {
        push_str(&mut w, " and (TeamIteration.IsCurrent eq 'true')");
    }
    assert(w@ =~= "AssignedUser.Id eq "@ + signed_decimal(my_user_id as int) + (
    if current_sprint_only {
        " and (TeamIteration.IsCurrent eq 'true')"@
    } else {
        Seq::empty()
    }));
    w
}

/// Fields fetched for each Task / Bug.
pub open spec fn work_item_fields() -> Seq<char> {
    "[Id,Name,EntityState[Id,Name,IsFinal],Project[Name,Process[Id]],TeamIteration[Name],UserStory[Id,Name]]"@
}

/// The query listing my Tasks or Bugs.
pub fn assigned_query(my_user_id: i64, current_sprint_only: bool) -> (r: Vec<(String, String)>)
    ensures
        pair_views(r@) == seq![
            ("where"@, assigned_where_text(my_user_id, current_sprint_only)),
            ("include"@, work_item_fields()),
        ],
{
    let w = assigned_where(my_user_id, current_sprint_only);
    let mut q: Vec<(String, String)> = Vec::new();
    q.push(pair("where", w));
    q.push(
        pair(
            "include",
            "[Id,Name,EntityState[Id,Name,IsFinal],Project[Name,Process[Id]],TeamIteration[Name],UserStory[Id,Name]]".to_owned(),
        ),
    );
    assert(pair_views(q@) =~= seq![
        ("where"@, assigned_where_text(my_user_id, current_sprint_only)),
        ("include"@, work_item_fields()),
    ]);
    q
}

pub open spec fn assigned_where_text(my_user_id: i64, current_sprint_only: bool) -> Seq<char> {
    "AssignedUser.Id eq "@ + signed_decimal(my_user_id as int) + (if current_sprint_only {
        " and (TeamIteration.IsCurrent eq 'true')"@
    } else {
        Seq::empty()
    })
}

/// `(Process.Id eq {pid}) and (EntityType.Name eq '{etype}')`.
pub fn states_where(process_id: i64, etype: &str) -> (r: String)
    ensures
        r@ == "(Process.Id eq "@ + signed_decimal(process_id as int) + ") and (EntityType.Name eq '"@
            + etype@ + "')"@,
{
    let mut w = String::new();
    push_str(&mut w, "(Process.Id eq ");
    let id = i64_text(process_id);
    push_str(&mut w, id.as_str());
    push_str(&mut w, ") and (EntityType.Name eq '");
    push_str(&mut w, etype);
    push_str(&mut w, "')");
    w
}

/// `User.Id eq {id}`: my time entries.
pub fn times_where(my_user_id: i64) -> (r: String)
    ensures
        r@ == "User.Id eq "@ + signed_decimal(my_user_id as int),
{
    let mut w = String::new();
    push_str(&mut w, "User.Id eq ");
    let id = i64_text(my_user_id);
    push_str(&mut w, id.as_str());
    w
}

/// `{collection}/{id}`, the path of one entity.
pub fn entity_path(entity_type: &str, id: i64) -> (r: String)
    ensures
        r@ == entity_type@ + seq!['/'] + signed_decimal(id as int),
{
    let mut p = String::new();
    push_str(&mut p, entity_type);
    push_char(&mut p, '/');
    let n = i64_text(id);
    push_str(&mut p, n.as_str());
    p
}

/// `Times/{id}`, the path of one time entry.
pub fn time_path(time_id: i64) -> (r: String)
    ensures
        r@ == "Times/"@ + signed_decimal(time_id as int),
{
    let mut p = String::new();
    push_str(&mut p, "Times/");
    let n = i64_text(time_id);
    push_str(&mut p, n.as_str());
    p
}

/// `{base}/entity/{id}`, the web page of an entity.
pub fn entity_url(tp_url: &str, id: i64) -> (r: String)
    ensures
        r@ == without_trailing_slashes(tp_url@) + "/entity/"@ + signed_decimal(id as int),
{
    let cfg = TpConfig::new(tp_url, "", 0);
    let mut u = cfg.base_url;
    push_str(&mut u, "/entity/");
    let n = i64_text(id);
    push_str(&mut u, n.as_str());
    u
}

/// `"Bug"` for the `Bugs` collection, `"Task"` otherwise.
pub fn display_type(collection: &str) -> (r: &'static str)
    ensures
        r@ == if collection@ == "Bugs"@ {
            "Bug"@
        } else {
            "Task"@
        },
{
    if crate::text::same_text(collection, "Bugs") {
        "Bug"
    } else {
        "Task"
    }
}

/// The name shown for the signed-in user: first and last name, trimmed.
pub fn display_name(first: &str, last: &str) -> (r: String)
    ensures
        r@ == trimmed(first@ + seq![' '] + last@),
{
    let mut full = String::new();
    push_str(&mut full, first);
    push_char(&mut full, ' ');
    push_str(&mut full, last);
    assert(full@ =~= first@ + seq![' '] + last@);
    trim(full.as_str())
}

/// The fields of one Task / Bug as TP returned them; each is absent when the
/// response lacks it (or holds a value of another type).
#[derive(Debug)]
pub struct WorkItemFields {
    pub id: Option<i64>,
    pub name: Option<String>,
    pub state_id: Option<i64>,
    pub state_name: Option<String>,
    pub is_final: Option<bool>,
    pub project_name: Option<String>,
    pub process_id: Option<i64>,
    pub sprint: Option<String>,
    pub us_id: Option<i64>,
    pub us_name: Option<String>,
}

pub open spec fn text_or(t: Option<String>, d: Seq<char>) -> Seq<char> {
    match t {
        Some(s) => s@,
        None => d,
    }
}

pub open spec fn int_or(v: Option<i64>, d: i64) -> i64 {
    match v {
        Some(x) => x,
        None => d,
    }
}

/// `w` is the item read from `f` in `collection`: absent fields read as
/// empty texts, 0, not final, and `?` for the status name.
pub open spec fn item_read_as(collection: Seq<char>, f: WorkItemFields, w: WorkItem) -> bool {
    &&& f.id == Some(w.id)
    &&& w.name@ == text_or(f.name, Seq::empty())
    &&& w.entity_type@ == collection
    &&& w.display_type@ == (if collection == "Bugs"@ {
        "Bug"@
    } else {
        "Task"@
    })
    &&& w.state_id == int_or(f.state_id, 0)
    &&& w.state_name@ == text_or(f.state_name, "?"@)
    &&& w.is_final == (f.is_final == Some(true))
    &&& w.project_name@ == text_or(f.project_name, Seq::empty())
    &&& w.process_id == int_or(f.process_id, 0)
    &&& w.sprint@ == text_or(f.sprint, Seq::empty())
    &&& w.us_id == int_or(f.us_id, 0)
    &&& w.us_name@ == text_or(f.us_name, Seq::empty())
}

fn owned_or(t: &Option<String>, d: &str) -> (r: String)
    ensures
        r@ == text_or(*t, d@),
{
    match t {
        Some(s) => s.clone(),
        None => d.to_owned(),
    }
}

/// The Task / Bug read from the fields TP returned for `collection`; an
/// entry without an id is skipped.
pub fn work_item_from(collection: &str, f: &WorkItemFields) -> (r: Option<WorkItem>)
    ensures
        r is Some <==> f.id is Some,
        r matches Some(w) ==> item_read_as(collection@, *f, w),
{
    let id = match f.id {
        Some(v) => v,
        None => return None,
    };
    let is_final = match f.is_final {
        Some(b) => b,
        None => false,
    };
    proof {
        reveal_strlit("?");
        reveal_strlit("");
    }
    let w = WorkItem {
        id,
        name: owned_or(&f.name, ""),
        entity_type: collection.to_owned(),
        display_type: display_type(collection).to_owned(),
        state_id: match f.state_id {
            Some(v) => v,
            None => 0,
        },
        state_name: owned_or(&f.state_name, "?"),
        is_final,
        project_name: owned_or(&f.project_name, ""),
        process_id: match f.process_id {
            Some(v) => v,
            None => 0,
        },
        sprint: owned_or(&f.sprint, ""),
        us_id: match f.us_id {
            Some(v) => v,
            None => 0,
        },
        us_name: owned_or(&f.us_name, ""),
    };
    assert(w.name@ == text_or(f.name, Seq::empty()));
    assert(w.entity_type@ == collection@);
    assert(w.display_type@ == (if collection@ == "Bugs"@ { "Bug"@ } else { "Task"@ }));
    assert(w.state_name@ == text_or(f.state_name, "?"@));
    assert(f.id == Some(w.id));
    assert(w.is_final == (f.is_final == Some(true)));
    assert(w.state_id == int_or(f.state_id, 0));
    assert(w.us_name@ == text_or(f.us_name, Seq::empty()));
    assert(w.project_name@ == text_or(f.project_name, Seq::empty()));
    assert(w.process_id == int_or(f.process_id, 0));
    assert(w.sprint@ == text_or(f.sprint, Seq::empty()));
    assert(w.us_id == int_or(f.us_id, 0));
    assert(item_read_as(collection@, *f, w));
    Some(w)
}

/// The status an entity reports after a change: its name (`?` when absent)
/// and whether it is final (false when absent).
pub fn entity_state_of(name: Option<String>, is_final: Option<bool>) -> (r: (String, bool))
    ensures
        r.0@ == text_or(name, "?"@),
        r.1 == (is_final == Some(true)),
{
    proof {
        reveal_strlit("?");
    }
    let n = owned_or(&name, "?");
    match is_final {
        Some(b) => (n, b),
        None => (n, false),
    }
}

// ---------------------------------------------------------------------------
// Replies
// ---------------------------------------------------------------------------

/// The body of a successful reply, parsed: an empty body reads as `{}`.
pub fn parse_reply(text: &str) -> (r: Option<Json>)
    ensures
        text@.len() == 0 ==> (r matches Some(Json::Object(es)) && es@.len() == 0),
        text@.len() > 0 ==> r == json_parsed(text@),
{
    if text.is_empty() {
        Some(Json::Object(Vec::new()))
    } else {
        crate::json::parse(text)
    }
}

/// Why the signed-in user could not be read from a `Context` reply.
#[derive(Clone, Copy, Debug, PartialEq, Eq, Structural)]
pub enum IdentityError {
    NoLoggedUser,
    NoId,
}

/// The signed-in user (id, display name, e-mail) of a `Context` reply: its
/// `LoggedUser`, whose `Id` must be an integer; the name is first and last
/// name, trimmed; absent texts read as empty.
pub fn identity_of(reply: &Json) -> (r: Result<(i64, String, String), IdentityError>)
    ensures
        match get(*reply, "LoggedUser"@) {
            None => r == Err::<(i64, String, String), IdentityError>(IdentityError::NoLoggedUser),
            Some(u) => match as_i64(get(u, "Id"@)) {
                None => r == Err::<(i64, String, String), IdentityError>(IdentityError::NoId),
                Some(id) => r matches Ok(v) && v.0 == id && v.1@ == trimmed(
                    text_or(as_str(get(u, "FirstName"@)), Seq::empty()) + seq![' '] + text_or(
                        as_str(get(u, "LastName"@)),
                        Seq::empty(),
                    ),
                ) && v.2@ == text_or(as_str(get(u, "Email"@)), Seq::empty()),
            },
        },
{
    proof {
        reveal_strlit("");
    }
    match field(reply, "LoggedUser") {
        None => Err(IdentityError::NoLoggedUser),
        Some(u) => match int_of(field(u, "Id")) {
            None => Err(IdentityError::NoId),
            Some(id) => {
                let first = owned_or(&text_of(field(u, "FirstName")), "");
                let last = owned_or(&text_of(field(u, "LastName")), "");
                let email = owned_or(&text_of(field(u, "Email")), "");
                Ok((id, display_name(first.as_str(), last.as_str()), email))
            },
        },
    }
}

/// Position of the first member named `key`.
fn position_of_key(es: &Vec<(String, Json)>, key: &str) -> (r: Option<usize>)
    ensures
        match r {
            Some(k) => k < es@.len() && lookup(es@, key@) == Some(es@[k as int].1),
            None => lookup(es@, key@) is None,
        },
{
    let mut i: usize = 0;
    assert(es@.subrange(0, es@.len() as int) =~= es@);
    while i < es.len()
        invariant
            i <= es@.len(),
            lookup(es@.subrange(i as int, es@.len() as int), key@) == lookup(es@, key@),
        decreases es.len() - i,
    {
        let ghost sub = es@.subrange(i as int, es@.len() as int);
        assert(sub[0] == es@[i as int]);
        if crate::text::same_text(es[i].0.as_str(), key) {
            return Some(i);
        }
        assert(sub.drop_first() =~= es@.subrange(i + 1, es@.len() as int));
        i = i + 1;
    }
    assert(es@.subrange(i as int, es@.len() as int) =~= Seq::<(String, Json)>::empty());
    None
}

/// The entries of a page reply: its `Items` array, or none when it has no
/// such array.
pub fn page_items(reply: Json) -> (r: Vec<Json>)
    ensures
        r@ == match get(reply, "Items"@) {
            Some(Json::Array(v)) => v@,
            _ => Seq::<Json>::empty(),
        },
{
    match reply {
        Json::Object(mut es) => {
            match position_of_key(&es, "Items") {
                Some(k) => {
                    let (_, v) = es.remove(k);
                    match v {
                        Json::Array(a) => a,
                        _ => Vec::new(),
                    }
                },
                None => Vec::new(),
            }
        },
        _ => Vec::new(),
    }
}

/// The fields of one Task / Bug entry of a reply.
pub open spec fn item_fields_of(it: Json) -> WorkItemFields {
    let es = get(it, "EntityState"@);
    let project = get(it, "Project"@);
    let us = get(it, "UserStory"@);
    WorkItemFields {
        id: as_i64(get(it, "Id"@)),
        name: as_str(get(it, "Name"@)),
        state_id: as_i64(get_in(es, "Id"@)),
        state_name: as_str(get_in(es, "Name"@)),
        is_final: as_bool(get_in(es, "IsFinal"@)),
        project_name: as_str(get_in(project, "Name"@)),
        process_id: as_i64(get_in(get_in(project, "Process"@), "Id"@)),
        sprint: as_str(get_in(get(it, "TeamIteration"@), "Name"@)),
        us_id: as_i64(get_in(us, "Id"@)),
        us_name: as_str(get_in(us, "Name"@)),
    }
}

/// Reads the fields of one Task / Bug entry.
pub fn fields_of_item(it: &Json) -> (r: WorkItemFields)
    ensures
        r == item_fields_of(*it),
{
    let es = field(it, "EntityState");
    let project = field(it, "Project");
    let us = field(it, "UserStory");
    WorkItemFields {
        id: int_of(field(it, "Id")),
        name: text_of(field(it, "Name")),
        state_id: int_of(field_in(es, "Id")),
        state_name: text_of(field_in(es, "Name")),
        is_final: bool_of(field_in(es, "IsFinal")),
        project_name: text_of(field_in(project, "Name")),
        process_id: int_of(field_in(field_in(project, "Process"), "Id")),
        sprint: text_of(field_in(field(it, "TeamIteration"), "Name")),
        us_id: int_of(field_in(us, "Id")),
        us_name: text_of(field_in(us, "Name")),
    }
}

/// The Task / Bug of one entry of a `Tasks` or `Bugs` page; an entry without
/// an integer `Id` is skipped.
pub fn work_item_of(collection: &str, it: &Json) -> (r: Option<WorkItem>)
    ensures
        r is Some <==> as_i64(get(*it, "Id"@)) is Some,
        r matches Some(w) ==> item_read_as(collection@, item_fields_of(*it), w),
{
    work_item_from(collection, &fields_of_item(it))
}

/// A Task / Bug entry's status comes from its `EntityState` object: the
/// item read from an entry whose `EntityState` has an integer `Id`, a text
/// `Name` and a flag `IsFinal` carries exactly those, whatever the entry
/// itself holds under those names; its project and process come from
/// `Project` and `Project.Process` likewise.
pub proof fn law_item_status_from_entity_state(
    collection: Seq<char>,
    it: Json,
    w: WorkItem,
    es: Json,
    state_id: i64,
    state_name: String,
    is_final: bool,
)
    requires
        item_read_as(collection, item_fields_of(it), w),
        get(it, "EntityState"@) == Some(es),
        get(es, "Id"@) matches Some(Json::Number { integer, text }) && integer == Some(state_id),
        get(es, "Name"@) == Some(Json::Str(state_name)),
        get(es, "IsFinal"@) == Some(Json::Bool(is_final)),
    ensures
        w.state_id == state_id,
        w.state_name@ == state_name@,
        w.is_final == is_final,
{
}

/// An entry without an `EntityState` object reads as an open item in
/// status `?`, even when the entry has `IsFinal` or `Name` of its own.
pub proof fn law_item_without_entity_state(collection: Seq<char>, it: Json, w: WorkItem)
    requires
        item_read_as(collection, item_fields_of(it), w),
        get(it, "EntityState"@) is None,
    ensures
        !w.is_final,
        w.state_name@ == "?"@,
        w.state_id == 0,
{
}

/// The project of a Task / Bug entry: `Project.Name` and `Project.Process.Id`.
pub proof fn law_item_project_fields(
    collection: Seq<char>,
    it: Json,
    w: WorkItem,
    project: Json,
    process: Json,
    name: String,
    process_id: i64,
)
    requires
        item_read_as(collection, item_fields_of(it), w),
        get(it, "Project"@) == Some(project),
        get(project, "Name"@) == Some(Json::Str(name)),
        get(project, "Process"@) == Some(process),
        get(process, "Id"@) matches Some(Json::Number { integer, text }) && integer == Some(process_id),
    ensures
        w.project_name@ == name@,
        w.process_id == process_id,
{
}

/// One of my time entries as a reply lists it; `spent` is the text of the
/// hours number (read as a floating-point value by the application).
#[derive(Debug)]
pub struct TimeRow {
    pub id: i64,
    pub item_id: i64,
    pub spent: Option<String>,
    pub day: String,
    pub description: String,
}

/// The entry's `Date` can be handed to [`tp_day`].
pub open spec fn date_readable(t: Json) -> bool {
    match as_str(get(t, "Date"@)) {
        Some(d) => offset_fields_on_boundaries(vstd::utf8::encode_utf8(d@)),
        None => true,
    }
}

/// Whether the entry's `Date` can be handed to [`tp_day`].
pub fn time_date_readable(t: &Json) -> (r: bool)
    ensures
        r == date_readable(*t),
{
    match text_of(field(t, "Date")) {
        Some(d) => tp_day_readable(d.as_str()),
        None => true,
    }
}

/// One time entry of a `Times` page: it needs an integer `Id` and a `Date`
/// that [`tp_day`] reads; the item is `Assignable.Id` (0 when absent), the
/// description empty when absent.
pub fn time_row_of(t: &Json) -> (r: Option<TimeRow>)
    requires
        date_readable(*t),
    ensures
        match (as_i64(get(*t, "Id"@)), as_str(get(*t, "Date"@))) {
            (Some(id), Some(d)) => exists|day: Option<String>|
                #[trigger] tp_day_ok(vstd::utf8::encode_utf8(d@), day) && (r is Some <==> day is Some)
                    && (r matches Some(row) ==> {
                    &&& row.id == id
                    &&& row.item_id == int_or(as_i64(get_in(get(*t, "Assignable"@), "Id"@)), 0)
                    &&& row.spent == number_text(get(*t, "Spent"@))
                    &&& row.day == day->0
                    &&& row.description@ == text_or(as_str(get(*t, "Description"@)), Seq::empty())
                }),
            _ => r is None,
        },
{
    proof {
        reveal_strlit("");
    }
    let id = match int_of(field(t, "Id")) {
        Some(v) => v,
        None => return None,
    };
    let item_id = match int_of(field_in(field(t, "Assignable"), "Id")) {
        Some(v) => v,
        None => 0,
    };
    let spent = number_text_of(field(t, "Spent"));
    let date = text_of(field(t, "Date"));
    let d = match &date {
        Some(x) => x,
        None => return None,
    };
    let day = tp_day(Some(d.as_str()));
    let description = owned_or(&text_of(field(t, "Description")), "");
    match day {
        Some(dy) => Some(TimeRow { id, item_id, spent, day: dy, description }),
        None => None,
    }
}

/// The status an entity reports in the reply to a status change.
pub fn entity_state_in(reply: &Json) -> (r: (String, bool))
    ensures
        r.0@ == text_or(as_str(get_in(get(*reply, "EntityState"@), "Name"@)), "?"@),
        r.1 == (as_bool(get_in(get(*reply, "EntityState"@), "IsFinal"@)) == Some(true)),
{
    let es = field(reply, "EntityState");
    entity_state_of(text_of(field_in(es, "Name")), bool_of(field_in(es, "IsFinal")))
}

/// The id of the entry a create request made (`None`: nothing was made).
pub fn created_id(reply: &Json) -> (r: Option<i64>)
    ensures
        r == as_i64(get(*reply, "Id"@)),
{
    int_of(field(reply, "Id"))
}

/// One workflow state of an `EntityStates` page; `priority` is the text of
/// its `NumericPriority` number (read as a floating-point value by the
/// application).
#[derive(Debug)]
pub struct StateRow {
    pub id: i64,
    pub name: String,
    pub is_final: bool,
    pub priority: Option<String>,
}

/// One workflow state entry: it needs an integer `Id`; the name is empty and
/// the state not final when absent.
pub fn state_row_of(s: &Json) -> (r: Option<StateRow>)
    ensures
        match as_i64(get(*s, "Id"@)) {
            None => r is None,
            Some(id) => r matches Some(row) && row.id == id && row.name@ == text_or(
                as_str(get(*s, "Name"@)),
                Seq::empty(),
            ) && row.is_final == (as_bool(get(*s, "IsFinal"@)) == Some(true)) && row.priority
                == number_text(get(*s, "NumericPriority"@)),
        },
{
    proof {
        reveal_strlit("");
    }
    let id = match int_of(field(s, "Id")) {
        Some(v) => v,
        None => return None,
    };
    let name = owned_or(&text_of(field(s, "Name")), "");
    let is_final = match bool_of(field(s, "IsFinal")) {
        Some(b) => b,
        None => false,
    };
    Some(StateRow { id, name, is_final, priority: number_text_of(field(s, "NumericPriority")) })
}

/// The description sent with a new time entry: trimmed, left out when empty.
pub fn log_description(description: &str) -> (r: Option<String>)
    ensures
        r is Some <==> trimmed(description@).len() > 0,
        r matches Some(d) ==> d@ == trimmed(description@),
{
    let d = trim(description);
    if d.as_str().is_empty() {
        None
    } else {
        Some(d)
    }
}

// ---------------------------------------------------------------------------
// Dates
// ---------------------------------------------------------------------------

/// Milliseconds since the Unix epoch of noon on `date` at `off_min` minutes
/// east of UTC.
pub open spec fn noon_millis(date: CivilDate, off_min: int) -> int {
    date.epoch() * 86_400_000 + 43_200_000 - off_min * 60_000
}

/// `/Date(ms±HHMM)/` as TP writes it.
pub open spec fn tp_date_text(ms: int, off_min: int) -> Seq<char> {
    let a = if off_min < 0 {
        -off_min
    } else {
        off_min
    };
    "/Date("@ + signed_decimal(ms) + (if off_min >= 0 {
        seq!['+']
    } else {
        seq!['-']
    }) + zero_padded((a / 60) as nat, 2) + zero_padded((a % 60) as nat, 2) + ")/"@
}

/// Noon on `date` at the offset, and the days around it, are inside chrono's
/// range (only the first and last representable days can fall outside).
pub open spec fn noon_representable(date: CivilDate, off_min: int) -> bool {
    local_hour_representable(date, 12, off_min * 60)
}

/// `/Date(ms±HHMM)/` anchored to noon on the target day at the given offset
/// (minutes east of UTC).
pub fn date_string(date: &CivilDate, off_min: i32) -> (r: String)
    requires
        date.wf(),
        -1440 < off_min < 1440,
        noon_representable(*date, off_min as int),
    ensures
        r@ == tp_date_text(noon_millis(*date, off_min as int), off_min as int),
        offset_fields_on_boundaries(vstd::utf8::encode_utf8(r@)),
{
    let ms = local_hour_utc_millis(date, 12, off_min * 60);
    let mut out = String::new();
    push_str(&mut out, "/Date(");
    let m = i64_text(ms);
    push_str(&mut out, m.as_str());
    push_char(
        &mut out,
        if off_min >= 0 {
            '+'
        } else {
            '-'
        },
    );
    let a: i32 = if off_min < 0 {
        -off_min
    } else {
        off_min
    };
    push_two_digits(&mut out, (a / 60) as u32);
    push_two_digits(&mut out, (a % 60) as u32);
    push_str(&mut out, ")/");
    assert(out@ =~= tp_date_text(noon_millis(*date, off_min as int), off_min as int));
    proof {
        law_noon_write_reads_back(*date, off_min as int);
    }
    out
}

/// Whether noon on `date` at `off_min` minutes east of UTC stays in
/// chrono's range, as [`date_string`] asks: it fails only on the first day
/// chrono represents at offsets past +12:00, and on the last at -12:00 and
/// below.
pub fn noon_fits(date: &CivilDate, off_min: i32) -> (r: bool)
    requires
        date.wf(),
        -1440 < off_min < 1440,
    ensures
        r == noon_representable(*date, off_min as int),
{
    let first = date.year == crate::calendar::MIN_YEAR && date.month == 1 && date.day == 1;
    let last = date.year == crate::calendar::MAX_YEAR && date.month == 12 && date.day == 31;
    proof {
        let x = 12 * 3600 - off_min * 60;
        assert(x / 86400 == (if off_min > 720 {
            -1int
        } else if off_min <= -720 {
            1int
        } else {
            0int
        })) by (nonlinear_arith)
            requires
                x == 43200 - off_min * 60,
                -1440 < off_min < 1440,
        ;
        lemma_valid_in_range(*date);
        let lo = CivilDate { year: crate::calendar::MIN_YEAR, month: 1, day: 1 };
        let hi = CivilDate { year: crate::calendar::MAX_YEAR, month: 12, day: 31 };
        if !first {
            crate::calendar::lemma_epoch_order(lo, *date);
        }
        if !last {
            crate::calendar::lemma_epoch_order(*date, hi);
        }
    }
    !((first && off_min > 720) || (last && off_min <= -720))
}

/// A byte that can begin the millisecond field: an ASCII digit or `-`.
pub open spec fn is_ms_byte(x: u8) -> bool {
    (48 <= x <= 57) || x == 45
}

pub open spec fn is_digit(x: u8) -> bool {
    48 <= x <= 57
}

/// The bytes from the first millisecond-field byte on.
pub open spec fn skip_to_ms(b: Seq<u8>) -> Seq<u8>
    decreases b.len(),
{
    if b.len() == 0 || is_ms_byte(b[0]) {
        b
    } else {
        skip_to_ms(b.drop_first())
    }
}

/// The leading run of ASCII digits.
pub open spec fn digit_run(b: Seq<u8>) -> Seq<u8>
    decreases b.len(),
{
    if b.len() == 0 || !is_digit(b[0]) {
        Seq::empty()
    } else {
        seq![b[0]] + digit_run(b.drop_first())
    }
}

/// The millisecond field of `/Date(ms±HHMM)/`: from the first digit or `-`,
/// an optional `-` followed by the digits.
pub open spec fn ms_field(b: Seq<u8>) -> Seq<u8> {
    let t = skip_to_ms(b);
    if t.len() > 0 && t[0] == 45 {
        seq![45u8] + digit_run(t.drop_first())
    } else {
        digit_run(t)
    }
}

/// Position just past the millisecond field.
pub open spec fn ms_end(b: Seq<u8>) -> int {
    b.len() - skip_to_ms(b).len() + ms_field(b).len()
}

/// Position of the first `+` or `-`, or -1.
pub open spec fn sign_pos(b: Seq<u8>) -> int
    decreases b.len(),
{
    if b.len() == 0 {
        -1
    } else if b[0] == 43 || b[0] == 45 {
        0
    } else {
        let r = sign_pos(b.drop_first());
        if r < 0 {
            -1
        } else {
            r + 1
        }
    }
}

/// Position of the offset's sign: the first `+` or `-` after the
/// millisecond field, or -1.
pub open spec fn offset_pos(b: Seq<u8>) -> int {
    let k = ms_end(b);
    let q = sign_pos(b.subrange(k, b.len() as int));
    if q < 0 {
        -1
    } else {
        k + q
    }
}

/// The embedded offset is read when its sign sits past `/Date(` with four
/// bytes after it.
pub open spec fn has_offset(b: Seq<u8>) -> bool {
    offset_pos(b) > 5 && offset_pos(b) + 5 <= b.len()
}

pub open spec fn parsed_or_zero(b: Seq<u8>) -> int {
    match parsed_i64(b) {
        Some(v) => v as int,
        None => 0,
    }
}

/// The embedded offset in seconds east of UTC (`±HHMM` after the
/// millisecond field, each two-byte field read as an integer, 0 when
/// unreadable), or 0 when there is none.
pub open spec fn offset_secs(b: Seq<u8>) -> int {
    if has_offset(b) {
        let p = offset_pos(b);
        let h = parsed_or_zero(b.subrange(p + 1, p + 3));
        let m = parsed_or_zero(b.subrange(p + 3, p + 5));
        (if b[p] == 45 {
            -1int
        } else {
            1int
        }) * (h * 3600 + m * 60)
    } else {
        0
    }
}

/// The hour and minute fields begin and end on character boundaries (byte
/// `p + 1` is one whenever the sign at `p` is present; the others depend on
/// what follows it).
pub open spec fn offset_fields_on_boundaries(b: Seq<u8>) -> bool {
    has_offset(b) ==> {
        let p = offset_pos(b);
        &&& !vstd::utf8::is_continuation_byte(b[p + 1])
        &&& !vstd::utf8::is_continuation_byte(b[p + 3])
        &&& (p + 5 < b.len() ==> !vstd::utf8::is_continuation_byte(b[p + 5]))
    }
}

/// Integer division rounding toward zero (Rust's `/`).
pub open spec fn div_toward_zero(a: int, d: int) -> int {
    if a >= 0 {
        a / d
    } else {
        -((-a) / d)
    }
}

/// What `tp_day` returns for a present value with bytes `b`.
pub open spec fn tp_day_ok(b: Seq<u8>, r: Option<String>) -> bool {
    match parsed_i64(ms_field(b)) {
        None => r is None,
        Some(ms) => {
            let secs = div_toward_zero(ms as int, 1000) + offset_secs(b);
            let day = secs / 86400;
            &&& (r is Some <==> min_epoch_day() <= day <= max_epoch_day())
            &&& (r matches Some(t) ==> exists|c: CivilDate|
                c.wf() && c.epoch() == day && t@ == #[trigger] c.text())
        },
    }
}

/// A byte range of a string (std `Index<Range<usize>>` for `str`).
#[verifier::external_body]
fn str_slice(s: &str, from: usize, to: usize) -> (r: &str)
    requires
        from <= to <= vstd::utf8::encode_utf8(s@).len(),
        vstd::utf8::is_char_boundary(vstd::utf8::encode_utf8(s@), from as int),
        vstd::utf8::is_char_boundary(vstd::utf8::encode_utf8(s@), to as int),
    ensures
        vstd::utf8::encode_utf8(r@) == vstd::utf8::encode_utf8(s@).subrange(from as int, to as int),
{
    &s[from..to]
}

proof fn lemma_boundary(b: Seq<u8>, i: int)
    requires
        vstd::utf8::valid_utf8(b),
        0 <= i <= b.len(),
        i < b.len() ==> !vstd::utf8::is_continuation_byte(b[i]),
    ensures
        vstd::utf8::is_char_boundary(b, i),
{
    if i == b.len() {
        vstd::utf8::is_char_boundary_start_end_of_seq(b);
    } else {
        vstd::utf8::is_char_boundary_iff_not_is_continuation_byte(b, i);
    }
}

fn parse_two(s: &str, b: &[u8], from: usize) -> (r: i64)
    requires
        b@ == vstd::utf8::encode_utf8(s@),
        from + 2 <= b@.len(),
        from < b@.len() ==> !vstd::utf8::is_continuation_byte(b@[from as int]),
        from + 2 < b@.len() ==> !vstd::utf8::is_continuation_byte(b@[from + 2]),
    ensures
        r == parsed_or_zero(b@.subrange(from as int, from + 2)),
{
    let n = b.len();
    proof {
        vstd::utf8::encode_utf8_valid_utf8(s@);
        lemma_boundary(b@, from as int);
        lemma_boundary(b@, from + 2);
    }
    let part = str_slice(s, from, from + 2);
    match parse_i64(part) {
        Some(v) => v,
        None => 0,
    }
}

/// Position of the first `+`/`-` byte at or after `from`, or `None`.
fn find_sign_from(b: &[u8], from: usize) -> (r: Option<usize>)
    requires
        from <= b@.len(),
    ensures
        match r {
            Some(p) => p >= from && p == from + sign_pos(b@.subrange(from as int, b@.len() as int)),
            None => sign_pos(b@.subrange(from as int, b@.len() as int)) == -1,
        },
{
    let ghost t = b@.subrange(from as int, b@.len() as int);
    let mut i: usize = from;
    while i < b.len()
        invariant
            from <= i <= b@.len(),
            t == b@.subrange(from as int, b@.len() as int),
            forall|j: int| from <= j < i ==> b@[j] != 43 && b@[j] != 45,
        decreases b.len() - i,
    {
        if b[i] == 43 || b[i] == 45 {
            proof {
                assert forall|j: int| 0 <= j < i - from implies t[j] != 43 && t[j] != 45 by {
                    assert(t[j] == b@[from + j]);
                }
                lemma_sign_pos_at(t, i - from);
            }
            return Some(i);
        }
        i = i + 1;
    }
    proof {
        assert forall|j: int| 0 <= j < t.len() implies t[j] != 43 && t[j] != 45 by {
            assert(t[j] == b@[from + j]);
        }
        lemma_sign_pos_none(t);
    }
    None
}

proof fn lemma_sign_pos_at(b: Seq<u8>, i: int)
    requires
        0 <= i < b.len(),
        b[i] == 43 || b[i] == 45,
        forall|j: int| 0 <= j < i ==> b[j] != 43 && b[j] != 45,
    ensures
        sign_pos(b) == i,
    decreases i,
{
    if i > 0 {
        lemma_sign_pos_at(b.drop_first(), i - 1);
    }
}

proof fn lemma_sign_pos_none(b: Seq<u8>)
    requires
        forall|j: int| 0 <= j < b.len() ==> b[j] != 43 && b[j] != 45,
    ensures
        sign_pos(b) == -1,
    decreases b.len(),
{
    if b.len() > 0 {
        lemma_sign_pos_none(b.drop_first());
    }
}

proof fn lemma_skip_to_ms(b: Seq<u8>, i: int)
    requires
        0 <= i <= b.len(),
        forall|j: int| 0 <= j < i ==> !is_ms_byte(b[j]),
        i < b.len() ==> is_ms_byte(b[i]),
    ensures
        skip_to_ms(b) == b.subrange(i, b.len() as int),
    decreases i,
{
    if i == 0 {
        assert(b.subrange(0, b.len() as int) =~= b);
    } else {
        lemma_skip_to_ms(b.drop_first(), i - 1);
        assert(b.drop_first().subrange(i - 1, b.len() - 1) =~= b.subrange(i, b.len() as int));
    }
}

proof fn lemma_digit_run(b: Seq<u8>, k: int)
    requires
        0 <= k <= b.len(),
        forall|j: int| 0 <= j < k ==> is_digit(b[j]),
        k < b.len() ==> !is_digit(b[k]),
    ensures
        digit_run(b) == b.subrange(0, k),
    decreases k,
{
    if k == 0 {
        assert(b.subrange(0, 0) =~= Seq::<u8>::empty());
    } else {
        lemma_digit_run(b.drop_first(), k - 1);
        assert(seq![b[0]] + b.drop_first().subrange(0, k - 1) =~= b.subrange(0, k));
    }
}

/// The ASCII text of a run of bytes.
fn ascii_text(b: &[u8], from: usize, to: usize) -> (r: String)
    requires
        from <= to <= b@.len(),
        forall|j: int| from <= j < to ==> #[trigger] b@[j] < 128,
    ensures
        vstd::utf8::encode_utf8(r@) == b@.subrange(from as int, to as int),
{
    let mut out = String::new();
    let mut i: usize = from;
    while i < to
        invariant
            from <= i <= to <= b@.len(),
            forall|j: int| from <= j < to ==> #[trigger] b@[j] < 128,
            out@.len() == i - from,
            forall|j: int| 0 <= j < out@.len() ==> #[trigger] out@[j] == (b@[from + j] as char),
        decreases to - i,
    {
        push_char(&mut out, b[i] as char);
        i = i + 1;
    }
    proof {
        let cs = out@;
        assert(vstd::utf8::is_ascii_chars(cs)) by {
            assert forall|j: int| 0 <= j < cs.len() implies '\0' <= #[trigger] cs[j] <= '\u{7f}' by {
                let x = b@[from + j];
                assert(cs[j] == x as char);
                assert(x < 128);
            }
        }
        vstd::utf8::is_ascii_chars_encode_utf8(cs);
        assert forall|j: int| 0 <= j < cs.len() implies vstd::utf8::encode_utf8(cs)[j] == b@.subrange(
            from as int,
            to as int,
        )[j] by {
            let x = b@[from + j];
            assert(cs[j] == x as char);
            assert((x as char) as u8 == x);
        }
        assert(vstd::utf8::encode_utf8(cs) =~= b@.subrange(from as int, to as int));
    }
    out
}

/// Where the millisecond field begins and ends.
fn ms_span(b: &[u8]) -> (r: (usize, usize))
    ensures
        r.0 <= r.1 <= b@.len(),
        skip_to_ms(b@) == b@.subrange(r.0 as int, b@.len() as int),
        ms_field(b@) == b@.subrange(r.0 as int, r.1 as int),
        ms_end(b@) == r.1,
        forall|j: int| r.0 <= j < r.1 ==> #[trigger] b@[j] < 128,
{
    let ghost bs = b@;
    // skip to the first digit or '-', then an optional '-' and the digits
    let mut i: usize = 0;
    while i < b.len() && !((48 <= b[i] && b[i] <= 57) || b[i] == 45)
        invariant
            i <= b@.len(),
            forall|j: int| 0 <= j < i ==> !is_ms_byte(b@[j]),
        decreases b.len() - i,
    {
        i = i + 1;
    }
    let minus = i < b.len() && b[i] == 45;
    let d: usize = if minus {
        i + 1
    } else {
        i
    };
    let mut k: usize = d;
    while k < b.len() && 48 <= b[k] && b[k] <= 57
        invariant
            d <= k <= b@.len(),
            forall|j: int| d <= j < k ==> is_digit(b@[j]),
        decreases b.len() - k,
    {
        k = k + 1;
    }
    proof {
        lemma_skip_to_ms(bs, i as int);
        let t = bs.subrange(i as int, bs.len() as int);
        let rest = bs.subrange(d as int, bs.len() as int);
        lemma_digit_run(rest, k - d);
        assert(rest.subrange(0, k - d) =~= bs.subrange(d as int, k as int));
        if minus {
            assert(t.drop_first() =~= rest);
            assert(seq![45u8] + bs.subrange(d as int, k as int) =~= bs.subrange(i as int, k as int));
        } else {
            assert(t =~= rest);
        }
        assert(ms_field(bs) =~= bs.subrange(i as int, k as int));
        assert(ms_end(bs) == k);
        assert forall|j: int| i <= j < k implies #[trigger] bs[j] < 128 by {
            if j >= d {
                assert(is_digit(bs[j]));
            }
        }
    }
    (i, k)
}

/// Position of the embedded offset's sign, when there is an offset.
fn offset_sign(b: &[u8]) -> (r: Option<usize>)
    ensures
        match r {
            Some(p) => has_offset(b@) && p == offset_pos(b@),
            None => !has_offset(b@),
        },
{
    let (_, k) = ms_span(b);
    match find_sign_from(b, k) {
        Some(pos) => {
            if pos > 5 && b.len() >= 5 && pos <= b.len() - 5 {
                Some(pos)
            } else {
                None
            }
        },
        None => None,
    }
}

/// Whether [`tp_day`] can read `s`: its offset fields, when it has an
/// offset, begin and end on character boundaries.
pub fn tp_day_readable(s: &str) -> (r: bool)
    ensures
        r == offset_fields_on_boundaries(vstd::utf8::encode_utf8(s@)),
{
    let b = s.as_bytes();
    match offset_sign(b) {
        Some(p) => {
            assert(p == offset_pos(b@));
            assert(p + 5 <= b.len());
            let cont1 = 0x80 <= b[p + 1] && b[p + 1] <= 0xbf;
            let cont3 = 0x80 <= b[p + 3] && b[p + 3] <= 0xbf;
            let cont5 = p + 5 < b.len() && 0x80 <= b[p + 5] && b[p + 5] <= 0xbf;
            !cont1 && !cont3 && !cont5
        },
        None => true,
    }
}

/// Reads TP's `/Date(ms±HHMM)/` and gives the calendar day (`YYYY-MM-DD`)
/// at the embedded offset. `None` when the value is missing, the millisecond
/// field does not read as an integer, or the day is out of range.
pub fn tp_day(s: Option<&str>) -> (r: Option<String>)
    requires
        s matches Some(t) ==> offset_fields_on_boundaries(vstd::utf8::encode_utf8(t@)),
    ensures
        match s {
            None => r is None,
            Some(t) => tp_day_ok(vstd::utf8::encode_utf8(t@), r),
        },
{
    let s = match s {
        Some(t) => t,
        None => return None,
    };
    let b = s.as_bytes();
    let ghost bs = b@;
    let (i, k) = ms_span(b);
    let ms_str = ascii_text(b, i, k);
    let ms = match parse_i64(ms_str.as_str()) {
        Some(v) => v,
        None => return None,
    };
    // the offset: the first sign after the millisecond field
    let mut off_sec: i64 = 0;
    match offset_sign(b) {
        Some(pos) => {
            {
                let sign: i64 = if b[pos] == 45 {
                    -1
                } else {
                    1
                };
                let h = parse_two(s, b, pos + 1);
                let m = parse_two(s, b, pos + 3);
                assert(-9 <= h <= 99 && -9 <= m <= 99) by {
                    lemma_two_byte_parse(bs.subrange(pos + 1, pos + 3));
                    lemma_two_byte_parse(bs.subrange(pos + 3, pos + 5));
                }
                let mag: i64 = h * 3600 + m * 60;
                off_sec = if sign < 0 {
                    -mag
                } else {
                    mag
                };
                assert(off_sec == sign * mag);
            }
        },
        None => {},
    }
    assert(off_sec == offset_secs(bs));
    assert(-400_000 <= off_sec <= 400_000);
    let q = ms / 1000;
    assert(q == div_toward_zero(ms as int, 1000));
    assert(-10_000_000_000_000_000 <= q <= 10_000_000_000_000_000);
    let secs = q + off_sec;
    assert(secs == div_toward_zero(ms as int, 1000) + offset_secs(bs));
    match utc_date_of_timestamp(secs) {
        Some(date) => {
            let t = date.format_ymd();
            Some(t)
        },
        None => None,
    }
}

/// Two bytes read as an integer lie in -9..=99.
proof fn lemma_two_byte_parse(b: Seq<u8>)
    requires
        b.len() == 2,
    ensures
        -9 <= parsed_or_zero(b) <= 99,
{
    reveal_with_fuel(crate::text::digits_value, 3);
    let d1 = b.drop_first();
    assert(d1.drop_last().len() == 0);
    assert(b.drop_last().drop_last().len() == 0);
    if crate::text::all_digit_bytes(d1) {
        assert(48 <= d1[0] <= 57);
    }
    if crate::text::all_digit_bytes(b) {
        assert(48 <= b[0] <= 57);
        assert(48 <= b[1] <= 57);
        assert(b.drop_last()[0] == b[0]);
    }
}

// ---------------------------------------------------------------------------
// Writing a day and reading it back
// ---------------------------------------------------------------------------

pub open spec fn is_ascii_char(c: char) -> bool {
    '\0' <= c <= '\u{7f}'
}

/// Bytes of an ASCII text.
pub open spec fn ascii_bytes(cs: Seq<char>) -> Seq<u8> {
    cs.map_values(|c: char| c as u8)
}

proof fn lemma_digit_byte(d: int)
    requires
        0 <= d < 10,
    ensures
        crate::text::digit_char(d) as u8 == 48 + d,
        is_ascii_char(crate::text::digit_char(d)),
{
    if d == 0 {
    } else if d == 1 {
    } else if d == 2 {
    } else if d == 3 {
    } else if d == 4 {
    } else if d == 5 {
    } else if d == 6 {
    } else if d == 7 {
    } else if d == 8 {
    } else {
    }
}

/// A decimal rendering is ASCII digits that read back as the number.
proof fn lemma_decimal_reads_back(n: nat)
    ensures
        decimal(n).len() >= 1,
        forall|i: int| 0 <= i < decimal(n).len() ==> is_ascii_char(#[trigger] decimal(n)[i]),
        crate::text::all_digit_bytes(ascii_bytes(decimal(n))),
        crate::text::digits_value(ascii_bytes(decimal(n))) == n,
    decreases n,
{
    let b = ascii_bytes(decimal(n));
    if n < 10 {
        lemma_digit_byte(n as int);
        assert(decimal(n) == seq![crate::text::digit_char(n as int)]);
        assert(b.len() == 1);
        assert(b[0] == 48 + n);
        assert(b.drop_last() =~= Seq::<u8>::empty());
        assert(crate::text::digits_value(b) == crate::text::digits_value(b.drop_last()) * 10 + (b.last() - 48));
    } else {
        lemma_decimal_reads_back(n / 10);
        lemma_digit_byte((n % 10) as int);
        let s = decimal(n / 10);
        assert(decimal(n) == s.push(crate::text::digit_char((n % 10) as int)));
        assert(b.drop_last() =~= ascii_bytes(s));
        assert(b.last() == 48 + n % 10);
        assert forall|i: int| 0 <= i < b.len() implies crate::text::is_digit_byte(#[trigger] b[i]) by {
            if i < b.len() - 1 {
                assert(b[i] == ascii_bytes(s)[i]);
            }
        }
        assert forall|i: int| 0 <= i < decimal(n).len() implies is_ascii_char(#[trigger] decimal(n)[i]) by {
            if i < decimal(n).len() - 1 {
                assert(decimal(n)[i] == s[i]);
            }
        }
        assert(crate::text::digits_value(b) == crate::text::digits_value(b.drop_last()) * 10 + (b.last() - 48));
    }
}

proof fn lemma_two_digits_read_back(n: nat)
    requires
        n < 100,
    ensures
        zero_padded(n, 2).len() == 2,
        forall|i: int| 0 <= i < 2 ==> is_ascii_char(#[trigger] zero_padded(n, 2)[i]),
        parsed_i64(ascii_bytes(zero_padded(n, 2))) == Some(n as i64),
{
    let z = zero_padded(n, 2);
    let b = ascii_bytes(z);
    if n < 10 {
        crate::text::lemma_decimal_small(n);
        assert(z =~= seq!['0', crate::text::digit_char(n as int)]);
        lemma_digit_byte(n as int);
        lemma_digit_byte(0);
        assert(b[0] == 48);
        assert(b[1] == 48 + n);
    } else {
        crate::text::lemma_decimal_two(n);
        lemma_digit_byte((n / 10) as int);
        lemma_digit_byte((n % 10) as int);
        assert(b[0] == 48 + n / 10);
        assert(b[1] == 48 + n % 10);
    }
    reveal_with_fuel(crate::text::digits_value, 3);
    assert(b.drop_last().drop_last().len() == 0);
    assert(b.drop_last()[0] == b[0]);
    assert(crate::text::all_digit_bytes(b));
}

proof fn lemma_ascii_encoding(cs: Seq<char>)
    requires
        forall|i: int| 0 <= i < cs.len() ==> is_ascii_char(#[trigger] cs[i]),
    ensures
        vstd::utf8::encode_utf8(cs) == ascii_bytes(cs),
{
    assert(vstd::utf8::is_ascii_chars(cs)) by {
        assert forall|i: int| 0 <= i < cs.len() implies '\0' <= #[trigger] cs[i] <= '\u{7f}' by {
            assert(is_ascii_char(cs[i]));
        }
    }
    vstd::utf8::is_ascii_chars_encode_utf8(cs);
    assert(vstd::utf8::encode_utf8(cs) =~= ascii_bytes(cs));
}

proof fn lemma_valid_in_range(c: CivilDate)
    requires
        c.wf(),
    ensures
        min_epoch_day() <= c.epoch() <= max_epoch_day(),
{
    let lo = CivilDate { year: crate::calendar::MIN_YEAR, month: 1, day: 1 };
    let hi = CivilDate { year: crate::calendar::MAX_YEAR, month: 12, day: 31 };
    assert(lo.wf() && hi.wf());
    if c != lo {
        crate::calendar::lemma_epoch_order(lo, c);
    }
    if c != hi {
        crate::calendar::lemma_epoch_order(c, hi);
    }
}

/// The signed decimal of an `i64` value is ASCII: an optional `-`, then
/// digits, and it reads back as the value.
proof fn lemma_signed_decimal_reads_back(v: int)
    requires
        i64::MIN <= v <= i64::MAX,
    ensures
        forall|i: int|
            0 <= i < signed_decimal(v).len() ==> is_ascii_char(#[trigger] signed_decimal(v)[i]),
        signed_decimal(v).len() >= 1,
        v < 0 ==> ascii_bytes(signed_decimal(v))[0] == 45,
        forall|j: int|
            (if v < 0 {
                1int
            } else {
                0int
            }) <= j < signed_decimal(v).len() ==> is_digit(#[trigger] ascii_bytes(signed_decimal(v))[j]),
        parsed_i64(ascii_bytes(signed_decimal(v))) == Some(v as i64),
{
    let sd = signed_decimal(v);
    let bs = ascii_bytes(sd);
    if v < 0 {
        let n = (-v) as nat;
        let dm = decimal(n);
        lemma_decimal_reads_back(n);
        assert(sd == seq!['-'] + dm);
        assert forall|i: int| 0 <= i < sd.len() implies is_ascii_char(#[trigger] sd[i]) by {
            if i > 0 {
                assert(sd[i] == dm[i - 1]);
            }
        }
        assert(bs.drop_first() =~= ascii_bytes(dm));
        assert forall|j: int| 1 <= j < sd.len() implies is_digit(#[trigger] bs[j]) by {
            assert(bs[j] == ascii_bytes(dm)[j - 1]);
            assert(crate::text::is_digit_byte(ascii_bytes(dm)[j - 1]));
        }
        assert(bs[0] == 45);
    } else {
        let n = v as nat;
        lemma_decimal_reads_back(n);
        assert(sd == decimal(n));
        assert forall|j: int| 0 <= j < sd.len() implies is_digit(#[trigger] bs[j]) by {
            assert(crate::text::is_digit_byte(bs[j]));
        }
        assert(is_digit(bs[0]));
    }
}

/// The text TP is sent for a day, and its bytes.
proof fn lemma_date_text_bytes(ms: int, off_min: int)
    requires
        i64::MIN <= ms <= i64::MAX,
        -1440 < off_min < 1440,
    ensures
        ({
            let txt = tp_date_text(ms, off_min);
            let b = vstd::utf8::encode_utf8(txt);
            let sd = signed_decimal(ms);
            let p = 6 + sd.len() as int;
            &&& b == ascii_bytes(txt)
            &&& b.len() == p + 7
            &&& forall|j: int| 0 <= j < b.len() ==> #[trigger] b[j] < 128
            &&& forall|j: int| 0 <= j < 6 ==> !is_ms_byte(#[trigger] b[j])
            &&& forall|j: int| 0 <= j < sd.len() ==> #[trigger] b[6 + j] == ascii_bytes(sd)[j]
            &&& b[p] == (if off_min >= 0 {
                43u8
            } else {
                45u8
            })
            &&& {
                let a = if off_min < 0 {
                    -off_min
                } else {
                    off_min
                };
                &&& b.subrange(p + 1, p + 3) == ascii_bytes(zero_padded((a / 60) as nat, 2))
                &&& b.subrange(p + 3, p + 5) == ascii_bytes(zero_padded((a % 60) as nat, 2))
                &&& parsed_i64(b.subrange(p + 1, p + 3)) == Some((a / 60) as i64)
                &&& parsed_i64(b.subrange(p + 3, p + 5)) == Some((a % 60) as i64)
            }
        }),
{
    let a = if off_min < 0 {
        -off_min
    } else {
        off_min
    };
    let head = "/Date("@;
    let tail = ")/"@;
    reveal_strlit("/Date(");
    reveal_strlit(")/");
    let sd = signed_decimal(ms);
    let sg = if off_min >= 0 {
        seq!['+']
    } else {
        seq!['-']
    };
    let zh = zero_padded((a / 60) as nat, 2);
    let zm = zero_padded((a % 60) as nat, 2);
    let txt = tp_date_text(ms, off_min);
    assert(txt =~= head + sd + sg + zh + zm + tail);
    lemma_signed_decimal_reads_back(ms);
    lemma_two_digits_read_back((a / 60) as nat);
    lemma_two_digits_read_back((a % 60) as nat);
    let l = sd.len() as int;
    assert(txt.len() == 6 + l + 7);
    assert forall|i: int| 0 <= i < txt.len() implies is_ascii_char(#[trigger] txt[i]) by {
        if i < 6 {
            assert(txt[i] == head[i]);
        } else if i < 6 + l {
            assert(txt[i] == sd[i - 6]);
        } else if i == 6 + l {
        } else if i < 6 + l + 3 {
            assert(txt[i] == zh[i - 7 - l]);
        } else if i < 6 + l + 5 {
            assert(txt[i] == zm[i - 9 - l]);
        } else {
            assert(txt[i] == tail[i - 11 - l]);
        }
    }
    lemma_ascii_encoding(txt);
    let b = ascii_bytes(txt);
    assert forall|j: int| 0 <= j < b.len() implies #[trigger] b[j] < 128 by {
        assert(is_ascii_char(txt[j]));
    }
    assert forall|j: int| 0 <= j < l implies #[trigger] b[6 + j] == ascii_bytes(sd)[j] by {
        assert(txt[6 + j] == sd[j]);
    }
    assert(b[0] == 47 && b[1] == 68 && b[2] == 97 && b[3] == 116 && b[4] == 101 && b[5] == 40);
    assert(b.subrange(6 + l + 1, 6 + l + 3) =~= ascii_bytes(zh));
    assert(b.subrange(6 + l + 3, 6 + l + 5) =~= ascii_bytes(zm));
}

/// A day written as TP's noon-anchored `/Date(ms±HHMM)/`, at any offset
/// TP can carry, is read back by [`tp_day`] as that same day: the value can
/// be handed to `tp_day`, and whatever `tp_day` may return for it is the day.
#[verifier::spinoff_prover]
#[verifier::rlimit(40)]
pub proof fn law_noon_write_reads_back(date: CivilDate, off_min: int)
    requires
        date.wf(),
        -1440 < off_min < 1440,
        i64::MIN <= noon_millis(date, off_min) <= i64::MAX,
    ensures
        offset_fields_on_boundaries(
            vstd::utf8::encode_utf8(tp_date_text(noon_millis(date, off_min), off_min)),
        ),
        forall|r: Option<String>|
            #![trigger tp_day_ok(vstd::utf8::encode_utf8(tp_date_text(noon_millis(date, off_min), off_min)), r)]
            tp_day_ok(
                vstd::utf8::encode_utf8(tp_date_text(noon_millis(date, off_min), off_min)),
                r,
            ) ==> r is Some && r->0@ == date.text(),
{
    let ms = noon_millis(date, off_min);
    let a = if off_min < 0 {
        -off_min
    } else {
        off_min
    };
    lemma_date_text_bytes(ms, off_min);
    lemma_signed_decimal_reads_back(ms);
    let txt = tp_date_text(ms, off_min);
    let b = vstd::utf8::encode_utf8(txt);
    let sd = signed_decimal(ms);
    let sb = ascii_bytes(sd);
    let l = sd.len() as int;
    let p = 6 + l;
    let neg = ms < 0;
    // the millisecond field
    assert(is_ms_byte(b[6])) by {
        assert(b[6 + 0int] == sb[0]);
        if !neg {
            assert(is_digit(sb[0]));
        }
    }
    lemma_skip_to_ms(b, 6);
    let t = b.subrange(6, b.len() as int);
    assert(skip_to_ms(b) == t);
    assert(!is_digit(b[p]));
    if neg {
        assert(t[0] == 45) by {
            assert(b[6 + 0int] == sb[0]);
        }
        let rest = t.drop_first();
        assert forall|j: int| 0 <= j < l - 1 implies is_digit(rest[j]) by {
            assert(rest[j] == b[7 + j]);
            assert(b[6 + (j + 1)] == sb[j + 1]);
            assert(is_digit(sb[j + 1]));
        }
        assert(rest[l - 1] == b[p]);
        lemma_digit_run(rest, l - 1);
        assert forall|j: int| 0 <= j < l - 1 implies rest.subrange(0, l - 1)[j] == sb.drop_first()[j] by {
            assert(rest[j] == b[6 + (j + 1)]);
        }
        assert(rest.subrange(0, l - 1) =~= sb.drop_first());
        assert(ms_field(b) =~= sb);
    } else {
        assert forall|j: int| 0 <= j < l implies is_digit(t[j]) by {
            assert(t[j] == b[6 + j]);
            assert(is_digit(sb[j]));
        }
        assert(t[l] == b[p]);
        lemma_digit_run(t, l);
        assert forall|j: int| 0 <= j < l implies t.subrange(0, l)[j] == sb[j] by {
            assert(t[j] == b[6 + j]);
        }
        assert(t.subrange(0, l) =~= sb);
        assert(ms_field(b) =~= sb);
    }
    assert(parsed_i64(ms_field(b)) == Some(ms as i64));
    // the offset
    assert(ms_end(b) == p);
    let after = b.subrange(p, b.len() as int);
    assert(after[0] == b[p]);
    lemma_sign_pos_at(after, 0);
    assert(offset_pos(b) == p);
    assert(has_offset(b));
    assert(offset_secs(b) == off_min * 60) by {
        let h = parsed_or_zero(b.subrange(p + 1, p + 3));
        let m = parsed_or_zero(b.subrange(p + 3, p + 5));
        assert(h == a / 60);
        assert(m == a % 60);
        vstd::arithmetic::div_mod::lemma_fundamental_div_mod(a, 60);
        assert(h * 3600 + m * 60 == a * 60);
        assert(offset_pos(b) == p);
        if off_min >= 0 {
            assert(b[p] == 43u8);
            assert(offset_secs(b) == 1int * (h * 3600 + m * 60));
        } else {
            assert(b[p] == 45u8);
            assert(offset_secs(b) == -1int * (h * 3600 + m * 60));
        }
    }
    assert(offset_fields_on_boundaries(b)) by {
        assert(b[p + 1] < 128 && b[p + 3] < 128 && b[p + 5] < 128);
    }
    // the day
    let e = date.epoch();
    let x = e * 86_400 + 43_200 - off_min * 60;
    assert(ms == x * 1000);
    assert(div_toward_zero(ms, 1000) == x) by {
        if ms >= 0 {
            vstd::arithmetic::div_mod::lemma_div_multiples_vanish_fancy(x, 0, 1000);
        } else {
            vstd::arithmetic::div_mod::lemma_div_multiples_vanish_fancy(-x, 0, 1000);
        }
    }
    let secs = div_toward_zero(ms, 1000) + offset_secs(b);
    assert(secs == e * 86400 + 43200);
    assert(secs / 86400 == e) by {
        vstd::arithmetic::div_mod::lemma_div_multiples_vanish_fancy(e, 43200, 86400);
    }
    lemma_valid_in_range(date);
    assert forall|r: Option<String>| tp_day_ok(b, r) implies r is Some && r->0@ == date.text() by {
        let c = choose|c: CivilDate| c.wf() && c.epoch() == e && r->0@ == #[trigger] c.text();
        crate::calendar::lemma_epoch_injective(c, date);
    }
}

} // verus!
