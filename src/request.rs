//! Requests and their decoding from a JSON object.
//!
//! Policy: the values of `user` and `how` are matched ignoring the case of
//! ASCII letters; the values of `method` and `what` are matched exactly.
use vstd::prelude::*;
use vstd::utf8::encode_utf8;
use vstd::string::StringSliceAdditionalSpecFns;
use crate::address::{
    Ipv4, MacAddress, ipv4_of_text, mac_of_text, parse_ipv4, parse_mac,
};

verus! {

/// A leaf value of a JSON object: a string, a non-negative integer that fits
/// in 64 bits, a boolean, or anything else.
#[derive(Debug)]
pub enum JsonLeaf {
    Text(String),
    Number(u64),
    Flag(bool),
    Other,
}

/// The top-level fields of a JSON object, in the order the parser gave them.
#[derive(Debug)]
pub struct Document {
    pub fields: Vec<(String, JsonLeaf)>,
}

/// The fields of the JSON object that a text holds, if it holds one.
pub uninterp spec fn json_object_of(text: Seq<char>) -> Option<Seq<(String, JsonLeaf)>>;

/// Relies on serde_json::from_str into serde_json::Value: the result depends
/// on the text alone; an object gives its fields, anything else nothing.
#[verifier::external_body]
fn parse_json_object(text: &str) -> (r: Option<Document>)
    ensures
        match r {
            Some(d) => json_object_of(text@) == Some(d.fields@),
            None => json_object_of(text@) is None,
        },
{
    match serde_json::from_str::<serde_json::Value>(text) {
        Ok(serde_json::Value::Object(m)) => Some(Document {
            fields: m.into_iter().map(|(k, v)| (k, match v {
                serde_json::Value::String(s) => JsonLeaf::Text(s),
                serde_json::Value::Bool(b) => JsonLeaf::Flag(b),
                serde_json::Value::Number(n) => n.as_u64().map_or(JsonLeaf::Other, JsonLeaf::Number),
                _ => JsonLeaf::Other,
            })).collect(),
        }),
        _ => None,
    }
}

/// The value of the first field named `key`.
pub open spec fn field(fs: Seq<(String, JsonLeaf)>, key: Seq<char>) -> Option<JsonLeaf>
    decreases fs.len(),
{
    if fs.len() == 0 {
        None
    } else if fs[0].0@ == key {
        Some(fs[0].1)
    } else {
        field(fs.drop_first(), key)
    }
}

pub open spec fn text_field(fs: Seq<(String, JsonLeaf)>, key: Seq<char>) -> Option<String> {
    match field(fs, key) {
        Some(JsonLeaf::Text(s)) => Some(s),
        _ => None,
    }
}

pub open spec fn number_field(fs: Seq<(String, JsonLeaf)>, key: Seq<char>) -> Option<u64> {
    match field(fs, key) {
        Some(JsonLeaf::Number(n)) => Some(n),
        _ => None,
    }
}

pub open spec fn flag_field(fs: Seq<(String, JsonLeaf)>, key: Seq<char>) -> Option<bool> {
    match field(fs, key) {
        Some(JsonLeaf::Flag(b)) => Some(b),
        _ => None,
    }
}

/// The octets of the MAC address in field `mac`, if it holds one.
pub open spec fn mac_field(fs: Seq<(String, JsonLeaf)>) -> Option<Seq<u8>> {
    match text_field(fs, "mac"@) {
        Some(s) => mac_of_text(s@),
        None => None,
    }
}

/// The IPv4 address in field `ip`, if it holds one.
pub open spec fn ip_field(fs: Seq<(String, JsonLeaf)>) -> Option<Ipv4> {
    match text_field(fs, "ip"@) {
        Some(s) => match ipv4_of_text(s@) {
            Some(b) => Some(Ipv4 { bits: b }),
            None => None,
        },
        None => None,
    }
}

/// A non-negative integer field that fits in `usize`.
pub open spec fn index_field(fs: Seq<(String, JsonLeaf)>, key: Seq<char>) -> Option<usize> {
    match number_field(fs, key) {
        Some(n) => if n <= usize::MAX {
            Some(n as usize)
        } else {
            None
        },
        None => None,
    }
}

/// A non-negative integer field that fits in `u16`.
pub open spec fn short_field(fs: Seq<(String, JsonLeaf)>, key: Seq<char>) -> Option<u16> {
    match number_field(fs, key) {
        Some(n) => if n <= u16::MAX {
            Some(n as u16)
        } else {
            None
        },
        None => None,
    }
}

/// `t` is `word` (lower case) up to the case of ASCII letters.
pub open spec fn is_keyword(t: Seq<char>, word: Seq<char>) -> bool {
    let a = encode_utf8(t);
    let b = encode_utf8(word);
    &&& a.len() == b.len()
    &&& forall|i: int| 0 <= i < a.len() ==> a[i] == b[i] || (65 <= a[i] <= 90 && a[i] + 32 == b[i])
}

/// A key the administrator may use: ASCII, shorter than 33 characters.
pub open spec fn valid_key(key: Seq<char>) -> bool {
    vstd::utf8::is_ascii_chars(key) && key.len() < 33
}

/// Reports whether `key` may serve as the administrator's key.
pub fn is_valid_key(key: &str) -> (r: bool)
    ensures
        r == valid_key(key@),
{
    broadcast use vstd::string::is_ascii_spec_bytes;

    let ascii = key.is_ascii();
    if !ascii {
        return false;
    }
    proof {
        assert(key.spec_bytes().len() == key@.len());
    }
    key.as_bytes().len() < 33
}

/// A request from the administrator; each carries the key it was sent with.
#[derive(Debug)]
pub enum AdminRequest {
    GetByMac { password: String, mac: MacAddress },
    GetByUsername { password: String, username: String, start_index: usize },
    GetByIndex { password: String, start_index: usize, end_index: usize },
    Drop { password: String, ip: Ipv4 },
    SetCapacity { password: String, capacity: u16 },
    SetListSize { password: String, list_size: u16 },
    SetDropVotes { password: String, drop_votes: u8 },
    SetDropVerification { password: String, drop_verification: bool },
    SetKey { password: String, key: String },
    SetPassword { password: String, new_password: String },
}

/// A request from a client; each carries the password it was sent with.
#[derive(Debug)]
pub enum ClientRequest {
    GetByMac { password: String, mac: MacAddress },
    GetByUsername { password: String, username: String, start_index: usize },
    Drop { password: String, ip: Ipv4 },
    SignUp { password: String, username: String, mac: MacAddress, port: u16, get_only_by_mac: bool },
}

/// A decoded request.
#[derive(Debug)]
pub enum Request {
    Admin(AdminRequest),
    Client(ClientRequest),
}

/// `r` is the administrator's `get` request that `fs` describes.
pub open spec fn admin_get_decodes(fs: Seq<(String, JsonLeaf)>, pw: String, r: Option<Request>) -> bool {
    match text_field(fs, "how"@) {
        Some(how) => if is_keyword(how@, "mac"@) {
            match mac_field(fs) {
                Some(o) => match r {
                    Some(Request::Admin(AdminRequest::GetByMac { password, mac })) => password == pw && mac@ == o,
                    _ => false,
                },
                None => r is None,
            }
        } else if is_keyword(how@, "username"@) {
            match (text_field(fs, "username"@), index_field(fs, "start_index"@)) {
                (Some(u), Some(k)) => r == Some(Request::Admin(AdminRequest::GetByUsername { password: pw, username: u, start_index: k })),
                _ => r is None,
            }
        } else if is_keyword(how@, "index"@) {
            match (index_field(fs, "start_index"@), index_field(fs, "end_index"@)) {
                (Some(a), Some(b)) => r == Some(Request::Admin(AdminRequest::GetByIndex { password: pw, start_index: a, end_index: b })),
                _ => r is None,
            }
        } else {
            r is None
        },
        None => r is None,
    }
}

/// `r` is the administrator's `set` request that `fs` describes.
pub open spec fn admin_set_decodes(fs: Seq<(String, JsonLeaf)>, pw: String, r: Option<Request>) -> bool {
    match text_field(fs, "what"@) {
        Some(what) => if what@ == "capacity"@ {
            match short_field(fs, "value"@) {
                Some(v) => r == Some(Request::Admin(AdminRequest::SetCapacity { password: pw, capacity: v })),
                None => r is None,
            }
        } else if what@ == "list_size"@ {
            match short_field(fs, "value"@) {
                Some(v) => r == Some(Request::Admin(AdminRequest::SetListSize { password: pw, list_size: v })),
                None => r is None,
            }
        } else if what@ == "drop_votes"@ {
            match number_field(fs, "value"@) {
                Some(v) => if 1 <= v <= 255 {
                    r == Some(Request::Admin(AdminRequest::SetDropVotes { password: pw, drop_votes: v as u8 }))
                } else {
                    r is None
                },
                None => r is None,
            }
        } else if what@ == "drop_verification"@ {
            match flag_field(fs, "value"@) {
                Some(v) => r == Some(Request::Admin(AdminRequest::SetDropVerification { password: pw, drop_verification: v })),
                None => r is None,
            }
        } else if what@ == "key"@ {
            match text_field(fs, "value"@) {
                Some(v) => r == Some(Request::Admin(AdminRequest::SetKey { password: pw, key: v })),
                None => r is None,
            }
        } else if what@ == "password"@ {
            match text_field(fs, "value"@) {
                Some(v) => r == Some(Request::Admin(AdminRequest::SetPassword { password: pw, new_password: v })),
                None => r is None,
            }
        } else {
            r is None
        },
        None => r is None,
    }
}

/// `r` is the administrator's request with method `method` that `fs` describes.
pub open spec fn admin_decodes(fs: Seq<(String, JsonLeaf)>, pw: String, method: Seq<char>, r: Option<Request>) -> bool {
    if method == "get"@ {
        admin_get_decodes(fs, pw, r)
    } else if method == "drop"@ {
        match ip_field(fs) {
            Some(ip) => r == Some(Request::Admin(AdminRequest::Drop { password: pw, ip })),
            None => r is None,
        }
    } else if method == "set"@ {
        admin_set_decodes(fs, pw, r)
    } else {
        r is None
    }
}

/// `r` is the client's request with method `method` that `fs` describes.
pub open spec fn client_decodes(fs: Seq<(String, JsonLeaf)>, pw: String, method: Seq<char>, r: Option<Request>) -> bool {
    if method == "get"@ {
        match text_field(fs, "how"@) {
            Some(how) => if is_keyword(how@, "mac"@) {
                match mac_field(fs) {
                    Some(o) => match r {
                        Some(Request::Client(ClientRequest::GetByMac { password, mac })) => password == pw && mac@ == o,
                        _ => false,
                    },
                    None => r is None,
                }
            } else if is_keyword(how@, "username"@) {
                match (text_field(fs, "username"@), index_field(fs, "start_index"@)) {
                    (Some(u), Some(k)) => r == Some(Request::Client(ClientRequest::GetByUsername { password: pw, username: u, start_index: k })),
                    _ => r is None,
                }
            } else {
                r is None
            },
            None => r is None,
        }
    } else if method == "drop"@ {
        match ip_field(fs) {
            Some(ip) => r == Some(Request::Client(ClientRequest::Drop { password: pw, ip })),
            None => r is None,
        }
    } else if method == "sign_up"@ {
        match (text_field(fs, "username"@), mac_field(fs), short_field(fs, "port"@), flag_field(fs, "get_only_by_mac"@)) {
            (Some(u), Some(o), Some(p), Some(g)) => match r {
                Some(Request::Client(ClientRequest::SignUp { password, username, mac, port, get_only_by_mac })) =>
                    password == pw && username == u && mac@ == o && port == p && get_only_by_mac == g,
                _ => false,
            },
            _ => r is None,
        }
    } else {
        r is None
    }
}

/// `r` is the request that the fields `fs` describe, or nothing when they
/// describe none.
pub open spec fn decodes_to(fs: Seq<(String, JsonLeaf)>, r: Option<Request>) -> bool {
    match (text_field(fs, "password"@), text_field(fs, "user"@), text_field(fs, "method"@)) {
        (Some(pw), Some(user), Some(method)) => if is_keyword(user@, "admin"@) {
            admin_decodes(fs, pw, method@, r)
        } else if is_keyword(user@, "client"@) {
            client_decodes(fs, pw, method@, r)
        } else {
            r is None
        },
        _ => r is None,
    }
}

fn same_text(a: &str, b: &str) -> (r: bool)
    ensures
        r == (a@ == b@),
{
    a.to_owned() == b.to_owned()
}

fn keyword_is(t: &str, word: &str) -> (r: bool)
    ensures
        r == is_keyword(t@, word@),
{
    let a = t.as_bytes();
    let b = word.as_bytes();
    if a.len() != b.len() {
        return false;
    }
    let mut i: usize = 0;
    while i < a.len()
        invariant
            0 <= i <= a@.len(),
            a@.len() == b@.len(),
            a@ == encode_utf8(t@),
            b@ == encode_utf8(word@),
            forall|j: int| 0 <= j < i ==> a@[j] == b@[j] || (65 <= a@[j] <= 90 && a@[j] + 32 == b@[j]),
        decreases a@.len() - i,
    {
        let x = a[i];
        let y = b[i];
        if !(x == y || (65 <= x && x <= 90 && x + 32 == y)) {
            return false;
        }
        i = i + 1;
    }
    true
}

fn find_field<'a>(fs: &'a Vec<(String, JsonLeaf)>, key: &str) -> (r: Option<&'a JsonLeaf>)
    ensures
        match r {
            Some(l) => field(fs@, key@) == Some(*l),
            None => field(fs@, key@) is None,
        },
{
    let target = key.to_owned();
    let mut i: usize = 0;
    assert(fs@.subrange(0, fs@.len() as int) =~= fs@);
    while i < fs.len()
        invariant
            target@ == key@,
            0 <= i <= fs@.len(),
            field(fs@, key@) == field(fs@.subrange(i as int, fs@.len() as int), key@),
        decreases fs@.len() - i,
    {
        let ghost rest = fs@.subrange(i as int, fs@.len() as int);
        assert(rest.drop_first() =~= fs@.subrange(i as int + 1, fs@.len() as int));
        assert(rest[0] == fs@[i as int]);
        if fs[i].0 == target {
            return Some(&fs[i].1);
        }
        i = i + 1;
    }
    None
}

fn text_of(fs: &Vec<(String, JsonLeaf)>, key: &str) -> (r: Option<String>)
    ensures
        r == text_field(fs@, key@),
{
    match find_field(fs, key) {
        Some(JsonLeaf::Text(s)) => Some(s.clone()),
        _ => None,
    }
}

fn number_of(fs: &Vec<(String, JsonLeaf)>, key: &str) -> (r: Option<u64>)
    ensures
        r == number_field(fs@, key@),
{
    match find_field(fs, key) {
        Some(JsonLeaf::Number(n)) => Some(*n),
        _ => None,
    }
}

fn flag_of(fs: &Vec<(String, JsonLeaf)>, key: &str) -> (r: Option<bool>)
    ensures
        r == flag_field(fs@, key@),
{
    match find_field(fs, key) {
        Some(JsonLeaf::Flag(b)) => Some(*b),
        _ => None,
    }
}

fn index_of(fs: &Vec<(String, JsonLeaf)>, key: &str) -> (r: Option<usize>)
    ensures
        r == index_field(fs@, key@),
{
    match number_of(fs, key) {
        Some(n) => if n <= usize::MAX as u64 {
            Some(n as usize)
        } else {
            None
        },
        None => None,
    }
}

fn short_of(fs: &Vec<(String, JsonLeaf)>, key: &str) -> (r: Option<u16>)
    ensures
        r == short_field(fs@, key@),
{
    match number_of(fs, key) {
        Some(n) => if n <= u16::MAX as u64 {
            Some(n as u16)
        } else {
            None
        },
        None => None,
    }
}

fn mac_from(fs: &Vec<(String, JsonLeaf)>) -> (r: Option<MacAddress>)
    ensures
        match mac_field(fs@) {
            Some(o) => r matches Some(m) && m@ == o,
            None => r is None,
        },
{
    match text_of(fs, "mac") {
        Some(s) => parse_mac(s.as_str()),
        None => None,
    }
}

fn ip_from(fs: &Vec<(String, JsonLeaf)>) -> (r: Option<Ipv4>)
    ensures
        r == ip_field(fs@),
{
    match text_of(fs, "ip") {
        Some(s) => parse_ipv4(s.as_str()),
        None => None,
    }
}

fn decode_admin_get(fs: &Vec<(String, JsonLeaf)>, password: String) -> (r: Option<Request>)
    ensures
        admin_get_decodes(fs@, password, r),
{
    let how = match text_of(fs, "how") {
        Some(h) => h,
        None => return None,
    };
    if keyword_is(how.as_str(), "mac") {
        match mac_from(fs) {
            Some(mac) => Some(Request::Admin(AdminRequest::GetByMac { password, mac })),
            None => None,
        }
    } else if keyword_is(how.as_str(), "username") {
        match (text_of(fs, "username"), index_of(fs, "start_index")) {
            (Some(username), Some(start_index)) => Some(
                Request::Admin(AdminRequest::GetByUsername { password, username, start_index }),
            ),
            _ => None,
        }
    } else if keyword_is(how.as_str(), "index") {
        match (index_of(fs, "start_index"), index_of(fs, "end_index")) {
            (Some(start_index), Some(end_index)) => Some(
                Request::Admin(AdminRequest::GetByIndex { password, start_index, end_index }),
            ),
            _ => None,
        }
    } else {
        None
    }
}

fn decode_admin_set(fs: &Vec<(String, JsonLeaf)>, password: String) -> (r: Option<Request>)
    ensures
        admin_set_decodes(fs@, password, r),
{
    let what = match text_of(fs, "what") {
        Some(w) => w,
        None => return None,
    };
    let what = what.as_str();
    if same_text(what, "capacity") {
        match short_of(fs, "value") {
            Some(capacity) => Some(Request::Admin(AdminRequest::SetCapacity { password, capacity })),
            None => None,
        }
    } else if same_text(what, "list_size") {
        match short_of(fs, "value") {
            Some(list_size) => Some(Request::Admin(AdminRequest::SetListSize { password, list_size })),
            None => None,
        }
    } else if same_text(what, "drop_votes") {
        match number_of(fs, "value") {
            Some(v) => if 1 <= v && v <= 255 {
                Some(Request::Admin(AdminRequest::SetDropVotes { password, drop_votes: v as u8 }))
            } else {
                None
            },
            None => None,
        }
    } else if same_text(what, "drop_verification") {
        match flag_of(fs, "value") {
            Some(drop_verification) => Some(
                Request::Admin(AdminRequest::SetDropVerification { password, drop_verification }),
            ),
            None => None,
        }
    } else if same_text(what, "key") {
        match text_of(fs, "value") {
            Some(key) => Some(Request::Admin(AdminRequest::SetKey { password, key })),
            None => None,
        }
    } else if same_text(what, "password") {
        match text_of(fs, "value") {
            Some(new_password) => Some(Request::Admin(AdminRequest::SetPassword { password, new_password })),
            None => None,
        }
    } else {
        None
    }
}

fn decode_admin(fs: &Vec<(String, JsonLeaf)>, password: String, method: &str) -> (r: Option<Request>)
    ensures
        admin_decodes(fs@, password, method@, r),
{
    if same_text(method, "get") {
        decode_admin_get(fs, password)
    } else if same_text(method, "drop") {
        match ip_from(fs) {
            Some(ip) => Some(Request::Admin(AdminRequest::Drop { password, ip })),
            None => None,
        }
    } else if same_text(method, "set") {
        decode_admin_set(fs, password)
    } else {
        None
    }
}

fn decode_client(fs: &Vec<(String, JsonLeaf)>, password: String, method: &str) -> (r: Option<Request>)
    ensures
        client_decodes(fs@, password, method@, r),
{
    if same_text(method, "get") {
        let how = match text_of(fs, "how") {
            Some(h) => h,
            None => return None,
        };
        if keyword_is(how.as_str(), "mac") {
            match mac_from(fs) {
                Some(mac) => Some(Request::Client(ClientRequest::GetByMac { password, mac })),
                None => None,
            }
        } else if keyword_is(how.as_str(), "username") {
            match (text_of(fs, "username"), index_of(fs, "start_index")) {
                (Some(username), Some(start_index)) => Some(
                    Request::Client(ClientRequest::GetByUsername { password, username, start_index }),
                ),
                _ => None,
            }
        } else {
            None
        }
    } else if same_text(method, "drop") {
        match ip_from(fs) {
            Some(ip) => Some(Request::Client(ClientRequest::Drop { password, ip })),
            None => None,
        }
    } else if same_text(method, "sign_up") {
        match (text_of(fs, "username"), mac_from(fs), short_of(fs, "port"), flag_of(fs, "get_only_by_mac")) {
            (Some(username), Some(mac), Some(port), Some(get_only_by_mac)) => Some(
                Request::Client(ClientRequest::SignUp { password, username, mac, port, get_only_by_mac }),
            ),
            _ => None,
        }
    } else {
        None
    }
}

/// Decodes the request that the fields of a JSON object describe; nothing
/// when a field is missing, has the wrong type, or holds a value outside
/// the table of requests.
pub fn decode(doc: &Document) -> (r: Option<Request>)
    ensures
        decodes_to(doc.fields@, r),
{
    let fs = &doc.fields;
    let password = match text_of(fs, "password") {
        Some(p) => p,
        None => return None,
    };
    let user = match text_of(fs, "user") {
        Some(u) => u,
        None => return None,
    };
    let method = match text_of(fs, "method") {
        Some(m) => m,
        None => return None,
    };
    if keyword_is(user.as_str(), "admin") {
        decode_admin(fs, password, method.as_str())
    } else if keyword_is(user.as_str(), "client") {
        decode_client(fs, password, method.as_str())
    } else {
        None
    }
}

impl Request {
    /// Decodes a request from its JSON text.
    pub fn from(text: &str) -> (r: Option<Request>)
        ensures
            match json_object_of(text@) {
                Some(fs) => decodes_to(fs, r),
                None => r is None,
            },
    {
        match parse_json_object(text) {
            Some(doc) => decode(&doc),
            None => None,
        }
    }
}

} // verus!
