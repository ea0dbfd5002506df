//! Credential URIs parsed into code-generation descriptors.

use vstd::prelude::*;
use vstd::string::*;
use crate::text::{first_at, first_index_of, lemma_first_at_unique, occurs_at, occurs_at_exec,
    owned, parse_unsigned, same_text, unsigned_value};

verus! {

/// The hash function under the HMAC.
#[allow(non_camel_case_types)]
#[derive(Clone, Copy, Debug, PartialEq, Eq, Structural)]
pub enum Algorithm {
    SHA1,
    SHA256,
    SHA512,
}

/// What is needed to compute the codes of one account.
#[derive(Debug)]
pub struct Descriptor {
    pub account: String,
    pub issuer: String,
    pub secret: Vec<u8>,
    pub algorithm: Algorithm,
    pub digits: u32,
    pub period: u64,
}

/// A descriptor as plain values.
pub struct DescriptorView {
    pub account: Seq<char>,
    pub issuer: Seq<char>,
    pub secret: Seq<u8>,
    pub algorithm: Algorithm,
    pub digits: u32,
    pub period: u64,
}

impl View for Descriptor {
    type V = DescriptorView;

    open spec fn view(&self) -> DescriptorView {
        DescriptorView {
            account: self.account@,
            issuer: self.issuer@,
            secret: self.secret@,
            algorithm: self.algorithm,
            digits: self.digits,
            period: self.period,
        }
    }
}

/// Whether `uri` is a well-formed URL, and if so its path and its query
/// split into decoded key/value pairs, in order.
pub uninterp spec fn url_parts(uri: Seq<char>) -> Option<(Seq<char>, Seq<(Seq<char>, Seq<char>)>)>;

/// The percent-decoding of `s`, if the decoded bytes are UTF-8.
pub uninterp spec fn percent_decoded(s: Seq<char>) -> Option<Seq<char>>;

/// The upper-case form of `s`.
pub uninterp spec fn upper_of(s: Seq<char>) -> Seq<char>;

/// The bytes that the unpadded base32 text `s` encodes, if it is valid.
pub uninterp spec fn base32_decoded(s: Seq<char>) -> Option<Seq<u8>>;

/// An optional string as plain characters.
pub open spec fn opt_text(o: Option<String>) -> Option<Seq<char>> {
    match o {
        Some(s) => Some(s@),
        None => None,
    }
}

/// Split URL parts as plain values.
pub open spec fn parts_view(o: Option<(String, Vec<(String, String)>)>) -> Option<(Seq<char>, Seq<(Seq<char>, Seq<char>)>)> {
    match o {
        Some(p) => Some((p.0@, p.1@.map_values(|kv: (String, String)| (kv.0@, kv.1@)))),
        None => None,
    }
}

/// Relies on `url::Url::parse`, `Url::path` and `Url::query_pairs`: whether
/// `uri` parses as a URL; its path; its query pairs, decoded, in order.
#[verifier::external_body]
fn split_url(uri: &str) -> (r: Option<(String, Vec<(String, String)>)>)
    ensures
        parts_view(r) == url_parts(uri@),
{
    url::Url::parse(uri).ok().map(
        |u| (u.path().to_string(), u.query_pairs().map(|(k, v)| (k.into_owned(), v.into_owned())).collect())
    )
}

/// Relies on `urlencoding::decode`: `s` percent-decoded, or nothing where
/// the decoded bytes are not UTF-8.
#[verifier::external_body]
fn percent_decode(s: &str) -> (r: Option<String>)
    ensures
        opt_text(r) == percent_decoded(s@),
{
    urlencoding::decode(s).ok().map(|c| c.into_owned())
}

/// Relies on `str::to_uppercase`: the result depends on the characters alone.
#[verifier::external_body]
fn to_upper(s: &str) -> (r: String)
    ensures
        r@ == upper_of(s@),
{
    s.to_uppercase()
}

/// Relies on `data_encoding::BASE32_NOPAD.decode`: the bytes that the
/// unpadded base32 text encodes, or nothing where it is not valid.
#[verifier::external_body]
fn base32_decode(s: &str) -> (r: Option<Vec<u8>>)
    ensures
        r is Some <==> base32_decoded(s@) is Some,
        r is Some ==> base32_decoded(s@) == Some(r->0@),
{
    data_encoding::BASE32_NOPAD.decode(s.as_bytes()).ok()
}

/// `s` with every leading copy of `p` removed.
pub open spec fn strip_repeated(s: Seq<char>, p: Seq<char>) -> Seq<char>
    decreases s.len(),
{
    if p.len() > 0 && occurs_at(s, p, 0) {
        strip_repeated(s.skip(p.len() as int), p)
    } else {
        s
    }
}

/// The encoded label in a URL path: after every leading `/totp/`, and after
/// every slash that then leads.
pub open spec fn encoded_label(path: Seq<char>) -> Seq<char> {
    strip_repeated(strip_repeated(path, "/totp/"@), "/"@)
}

/// The issuer and account that a label names: split at its first colon
/// where there is one, else all of it is the account.
pub open spec fn split_label(label: Seq<char>) -> (Option<Seq<char>>, Seq<char>) {
    if exists|i: int| first_at(label, ':', i) {
        let i = choose|i: int| first_at(label, ':', i);
        (Some(label.take(i)), label.skip(i + 1))
    } else {
        (None, label)
    }
}

/// The algorithm that an upper-cased name selects; anything unknown is SHA1.
pub open spec fn algorithm_named(u: Seq<char>) -> Algorithm {
    if u == "SHA256"@ {
        Algorithm::SHA256
    } else if u == "SHA512"@ {
        Algorithm::SHA512
    } else {
        Algorithm::SHA1
    }
}

/// The settings read from a query so far.
pub struct Settings {
    pub secret: Option<Seq<char>>,
    pub issuer: Option<Seq<char>>,
    pub algorithm: Algorithm,
    pub digits: u32,
    pub period: u64,
}

/// The settings after one more query pair; unknown keys change nothing.
pub open spec fn settings_step(st: Settings, key: Seq<char>, value: Seq<char>) -> Settings {
    if key == "secret"@ {
        Settings { secret: Some(value), ..st }
    } else if key == "issuer"@ {
        Settings { issuer: Some(value), ..st }
    } else if key == "algorithm"@ {
        Settings { algorithm: algorithm_named(upper_of(value)), ..st }
    } else if key == "digits"@ {
        Settings {
            digits: match unsigned_value(value, 0xffff_ffff) {
                Some(n) => n as u32,
                None => 6,
            },
            ..st
        }
    } else if key == "period"@ {
        Settings {
            period: match unsigned_value(value, 0xffff_ffff_ffff_ffff) {
                Some(n) => n as u64,
                None => 30,
            },
            ..st
        }
    } else {
        st
    }
}

/// The settings after reading all of `pairs` in order, from `st`.
pub open spec fn read_settings(st: Settings, pairs: Seq<(Seq<char>, Seq<char>)>) -> Settings
    decreases pairs.len(),
{
    if pairs.len() == 0 {
        st
    } else {
        let prev = read_settings(st, pairs.drop_last());
        settings_step(prev, pairs.last().0, pairs.last().1)
    }
}

/// The settings before any query pair: the issuer from the label and the
/// defaults.
pub open spec fn initial_settings(label_issuer: Option<Seq<char>>) -> Settings {
    Settings {
        secret: None,
        issuer: label_issuer,
        algorithm: Algorithm::SHA1,
        digits: 6,
        period: 30,
    }
}

/// The descriptor that a credential URI gives, or nothing where the URI is
/// not a URL, its label does not decode, or its secret is absent or not
/// valid base32.
pub open spec fn parse_spec(uri: Seq<char>) -> Option<DescriptorView> {
    match url_parts(uri) {
        None => None,
        Some(parts) => match percent_decoded(encoded_label(parts.0)) {
            None => None,
            Some(label) => {
                let (label_issuer, account) = split_label(label);
                let st = read_settings(initial_settings(label_issuer), parts.1);
                match st.secret {
                    None => None,
                    Some(text) => match base32_decoded(upper_of(text)) {
                        None => None,
                        Some(secret) => Some(
                            DescriptorView {
                                account,
                                issuer: match st.issuer {
                                    Some(i) => i,
                                    None => Seq::empty(),
                                },
                                secret,
                                algorithm: st.algorithm,
                                digits: st.digits,
                                period: st.period,
                            },
                        ),
                    },
                }
            },
        },
    }
}

/// `s` with every leading copy of `p` removed.
fn strip_leading<'a>(s: &'a str, p: &str) -> (r: &'a str)
    ensures
        r@ == strip_repeated(s@, p@),
{
    let n = s.unicode_len();
    let m = p.unicode_len();
    if m == 0 {
        return s;
    }
    let mut k: usize = 0;
    assert(s@.skip(0) =~= s@);
    while occurs_at_exec(s, p, k)
        invariant
            n == s@.len(),
            m == p@.len(),
            m > 0,
            k <= n,
            strip_repeated(s@, p@) == strip_repeated(s@.skip(k as int), p@),
        decreases n - k,
    {
        assert(s@.skip(k as int).subrange(0, m as int) =~= s@.subrange(k as int, k + m));
        assert(s@.skip(k as int).skip(m as int) =~= s@.skip(k + m));
        k = k + m;
    }
    assert(!occurs_at(s@.skip(k as int), p@, 0)) by {
        if occurs_at(s@.skip(k as int), p@, 0) {
            assert(s@.skip(k as int).subrange(0, m as int) =~= s@.subrange(k as int, k + m));
        }
    }
    s.substring_char(k, n)
}

/// The issuer and account that a decoded label names.
fn split_label_exec(label: &str) -> (r: (Option<String>, String))
    ensures
        opt_text(r.0) == split_label(label@).0,
        r.1@ == split_label(label@).1,
{
    let n = label.unicode_len();
    match first_index_of(label, ':') {
        Some(i) => {
            proof {
                let k = choose|k: int| first_at(label@, ':', k);
                lemma_first_at_unique(label@, ':', i as int, k);
            }
            let issuer = owned(label.substring_char(0, i));
            let account = owned(label.substring_char(i + 1, n));
            assert(account@ =~= label@.skip(i + 1));
            assert(issuer@ =~= label@.take(i as int));
            (Some(issuer), account)
        },
        None => (None, owned(label)),
    }
}

/// The descriptor that a credential URI gives, or nothing where the URI is
/// not a URL, its label does not decode, or its secret is absent or not
/// valid base32.
pub fn parse(uri: &str) -> (r: Option<Descriptor>)
    ensures
        r is Some <==> parse_spec(uri@) is Some,
        r is Some ==> r->0@ == parse_spec(uri@)->0,
{
    let (path, pairs) = match split_url(uri) {
        Some(parts) => parts,
        None => return None,
    };
    let ghost pv = pairs@.map_values(|kv: (String, String)| (kv.0@, kv.1@));
    let rest = strip_leading(strip_leading(path.as_str(), "/totp/"), "/");
    let label = match percent_decode(rest) {
        Some(l) => l,
        None => return None,
    };
    let (label_issuer, account) = split_label_exec(label.as_str());
    let mut secret: Option<String> = None;
    let mut issuer = label_issuer;
    let mut algorithm = Algorithm::SHA1;
    let mut digits: u32 = 6;
    let mut period: u64 = 30;
    let mut i: usize = 0;
    while i < pairs.len()
        invariant
            i <= pairs@.len(),
            pv == pairs@.map_values(|kv: (String, String)| (kv.0@, kv.1@)),
            ({
                let st = read_settings(initial_settings(split_label(label@).0), pv.take(i as int));
                &&& opt_text(secret) == st.secret
                &&& opt_text(issuer) == st.issuer
                &&& algorithm == st.algorithm
                &&& digits == st.digits
                &&& period == st.period
            }),
        decreases pairs.len() - i,
    {
        assert(pv.take(i + 1).drop_last() =~= pv.take(i as int));
        let key = pairs[i].0.as_str();
        let value = pairs[i].1.as_str();
        assert(pv.take(i + 1).last() == (key@, value@));
        if same_text(key, "secret") {
            secret = Some(owned(value));
        } else if same_text(key, "issuer") {
            issuer = Some(owned(value));
        } else if same_text(key, "algorithm") {
            let u = to_upper(value);
            algorithm = if same_text(u.as_str(), "SHA256") {
                Algorithm::SHA256
            } else if same_text(u.as_str(), "SHA512") {
                Algorithm::SHA512
            } else {
                Algorithm::SHA1
            };
        } else if same_text(key, "digits") {
            digits = match parse_unsigned(value, 0xffff_ffff) {
                Some(d) => d as u32,
                None => 6,
            };
        } else if same_text(key, "period") {
            period = match parse_unsigned(value, 0xffff_ffff_ffff_ffff) {
                Some(d) => d,
                None => 30,
            };
        }
        i = i + 1;
    }
    assert(pv.take(pairs@.len() as int) =~= pv);
    let secret = match secret {
        Some(s) => s,
        None => return None,
    };
    let upper = to_upper(secret.as_str());
    let bytes = match base32_decode(upper.as_str()) {
        Some(b) => b,
        None => return None,
    };
    let issuer = match issuer {
        Some(s) => s,
        None => String::new(),
    };
    Some(Descriptor { account, issuer, secret: bytes, algorithm, digits, period })
}

/// The query pairs of `uri`, where it is a URL.
pub open spec fn query_of(uri: Seq<char>) -> Seq<(Seq<char>, Seq<char>)> {
    match url_parts(uri) {
        Some(parts) => parts.1,
        None => Seq::empty(),
    }
}

/// The value of the last pair with key `key`, if any.
pub open spec fn last_value(pairs: Seq<(Seq<char>, Seq<char>)>, key: Seq<char>) -> Option<Seq<char>>
    decreases pairs.len(),
{
    if pairs.len() == 0 {
        None
    } else if pairs.last().0 == key {
        Some(pairs.last().1)
    } else {
        last_value(pairs.drop_last(), key)
    }
}

/// The secret read from a query is its last `secret` value.
proof fn lemma_secret_is_last(st: Settings, pairs: Seq<(Seq<char>, Seq<char>)>)
    ensures
        read_settings(st, pairs).secret == match last_value(pairs, "secret"@) {
            Some(s) => Some(s),
            None => st.secret,
        },
    decreases pairs.len(),
{
    if pairs.len() > 0 {
        lemma_secret_is_last(st, pairs.drop_last());
    }
}

/// A credential URI gives a descriptor only where its query holds a
/// `secret` and the last one, upper-cased, is valid base32: a URI without a
/// secret, or with one that does not decode, is skipped.
pub proof fn lemma_secret_required(uri: Seq<char>)
    ensures
        parse_spec(uri) is Some ==> {
            &&& url_parts(uri) is Some
            &&& last_value(query_of(uri), "secret"@) is Some
            &&& base32_decoded(upper_of(last_value(query_of(uri), "secret"@)->0)) is Some
        },
{
    if let Some(parts) = url_parts(uri) {
        if let Some(label) = percent_decoded(encoded_label(parts.0)) {
            lemma_secret_is_last(initial_settings(split_label(label).0), parts.1);
        }
    }
}

} // verus!
