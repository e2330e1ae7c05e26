//! The send-message pipeline: join the recipients, assemble the thirteen
//! request parameters, sort them into the provider's canonical order,
//! percent-encode them into the query string, derive the string-to-sign,
//! sign it, and assemble the final URL. Every step is specified exactly,
//! so the URL is pinned byte for byte as a function of credentials,
//! request fields, timestamp and nonce. Interpreting the provider's reply
//! is specified here as well; the HTTP exchange itself is left to the
//! caller.

use vstd::prelude::*;
use vstd::slice::slice_to_vec;
use vstd::string::StringExecFns;
use vstd::utf8::encode_utf8;
use vstd::utf8::is_ascii_chars;
use vstd::utf8::is_ascii_chars_encode_utf8;

use crate::client::Client;
use crate::client::Error;
use crate::encode::ascii_bytes;
use crate::encode::ascii_to_string;
use crate::encode::lemma_ascii_literal;
use crate::encode::lemma_special_encode_ascii;
use crate::encode::special_encode;
use crate::encode::special_url_encode;
use crate::encode::special_url_encode_bytes;
use crate::order::distinct_keys;
use crate::order::lemma_distinct_keys_preserved;
use crate::order::lemma_pair_le_total_ordering;
use crate::order::lex_lt;
use crate::order::pair_le_fn;
use crate::order::params_view;
use crate::order::lemma_sorted_multiset_unique;
use crate::order::sort_params;
use crate::order::Param;
use crate::sign::base64_of;
use crate::sign::hmac_sha1;
use crate::sign::sign_bytes;

verus! {

/// One send-message request. `param` carries the template parameters
/// already serialized as JSON text; the caller (or the surrounding
/// application layer) produces that text. `out_id` is carried for the
/// caller's bookkeeping and does not enter the request parameters.
pub struct SmsRequest {
    pub phones: Vec<String>,
    pub sign_name: String,
    pub template_code: String,
    pub out_id: Option<String>,
    pub param: String,
}

/// The provider's reply fields; a field absent from the reply is the
/// empty string.
pub struct SmsResponse {
    pub message: String,
    pub request_id: String,
    pub biz_id: String,
    pub code: String,
}

/// Recipients joined with commas.
pub open spec fn join_comma(items: Seq<Seq<u8>>) -> Seq<u8>
    decreases items.len(),
{
    if items.len() == 0 {
        Seq::empty()
    } else if items.len() == 1 {
        items[0]
    } else {
        join_comma(items.drop_last()) + encode_utf8(","@) + items.last()
    }
}

/// The UTF-8 bytes of each phone number.
pub open spec fn phones_bytes(ps: Seq<String>) -> Seq<Seq<u8>> {
    ps.map_values(|s: String| encode_utf8(s@))
}

/// The thirteen parameters in the order the request assembles them: six
/// fixed ones, then credential, request, timestamp and nonce fields.
pub open spec fn built_pairs(
    access: Seq<u8>,
    sign_name: Seq<u8>,
    template: Seq<u8>,
    ts: Seq<u8>,
    param: Seq<u8>,
    nonce: Seq<u8>,
    phones: Seq<u8>,
) -> Seq<(Seq<u8>, Seq<u8>)> {
    seq![
        (encode_utf8("Action"@), encode_utf8("SendSms"@)),
        (encode_utf8("Format"@), encode_utf8("JSON"@)),
        (encode_utf8("RegionId"@), encode_utf8("cn-hangzhou"@)),
        (encode_utf8("SignatureMethod"@), encode_utf8("HMAC-SHA1"@)),
        (encode_utf8("SignatureVersion"@), encode_utf8("1.0"@)),
        (encode_utf8("Version"@), encode_utf8("2017-05-25"@)),
        (encode_utf8("AccessKeyId"@), access),
        (encode_utf8("SignName"@), sign_name),
        (encode_utf8("TemplateCode"@), template),
        (encode_utf8("Timestamp"@), ts),
        (encode_utf8("TemplateParam"@), param),
        (encode_utf8("SignatureNonce"@), nonce),
        (encode_utf8("PhoneNumbers"@), phones),
    ]
}

/// The canonical parameter sequence: the built parameters in ascending
/// key order. The provider's signature contract hinges on this order.
pub open spec fn canonical_pairs(
    access: Seq<u8>,
    sign_name: Seq<u8>,
    template: Seq<u8>,
    ts: Seq<u8>,
    param: Seq<u8>,
    nonce: Seq<u8>,
    phones: Seq<u8>,
) -> Seq<(Seq<u8>, Seq<u8>)> {
    built_pairs(access, sign_name, template, ts, param, nonce, phones).sort_by(pair_le_fn())
}

/// `key=value`, both sides percent-encoded.
pub open spec fn pair_encoding(p: (Seq<u8>, Seq<u8>)) -> Seq<u8> {
    special_encode(p.0) + encode_utf8("="@) + special_encode(p.1)
}

/// Encoded pairs joined with `&`, in the order given.
pub open spec fn query_string_of(ps: Seq<(Seq<u8>, Seq<u8>)>) -> Seq<u8>
    decreases ps.len(),
{
    if ps.len() == 0 {
        Seq::empty()
    } else if ps.len() == 1 {
        pair_encoding(ps[0])
    } else {
        query_string_of(ps.drop_last()) + encode_utf8("&"@) + pair_encoding(ps.last())
    }
}

/// The string-to-sign: `GET`, `&`, the encoded `/`, `&`, then the whole
/// canonical query string percent-encoded once more as a single value.
pub open spec fn string_to_sign_of(qs: Seq<u8>) -> Seq<u8> {
    encode_utf8("GET&"@) + special_encode(encode_utf8("/"@)) + encode_utf8("&"@) + special_encode(
        qs,
    )
}

/// The final request URL for the given credentials, request fields,
/// timestamp and nonce: the gateway address, the percent-encoded
/// signature, and the canonical query string. The query string that is
/// signed and the one transmitted are one and the same value `qs`: any
/// divergence between the two would make the provider reject the call.
pub open spec fn sms_url_of(
    access: Seq<u8>,
    secret: Seq<u8>,
    sign_name: Seq<u8>,
    template: Seq<u8>,
    param: Seq<u8>,
    phones: Seq<u8>,
    ts: Seq<u8>,
    nonce: Seq<u8>,
) -> Seq<u8> {
    let qs = query_string_of(canonical_pairs(access, sign_name, template, ts, param, nonce, phones));
    let sig = base64_of(hmac_sha1(secret + encode_utf8("&"@), string_to_sign_of(qs)));
    encode_utf8("http://dysmsapi.aliyuncs.com/?Signature="@) + special_encode(sig) + encode_utf8(
        "&"@,
    ) + qs
}

/// ASCII bytes stay ASCII under concatenation.
proof fn lemma_ascii_concat(x: Seq<u8>, y: Seq<u8>)
    requires
        ascii_bytes(x),
        ascii_bytes(y),
    ensures
        ascii_bytes(x + y),
{
    assert forall|i: int| 0 <= i < (x + y).len() implies (x + y)[i] < 128 by {
        if i < x.len() {
            assert((x + y)[i] == x[i]);
        } else {
            assert((x + y)[i] == y[i - x.len()]);
        }
    }
}

/// The one-character separators are ASCII.
proof fn lemma_separators_ascii()
    ensures
        ascii_bytes(encode_utf8("="@)),
        ascii_bytes(encode_utf8("&"@)),
{
    reveal_strlit("=");
    reveal_strlit("&");
    assert(is_ascii_chars("="@));
    assert(is_ascii_chars("&"@));
    lemma_ascii_literal("="@);
    lemma_ascii_literal("&"@);
}

/// The canonical query string consists of ASCII bytes only.
proof fn lemma_query_string_ascii(ps: Seq<(Seq<u8>, Seq<u8>)>)
    ensures
        ascii_bytes(query_string_of(ps)),
    decreases ps.len(),
{
    lemma_separators_ascii();
    if ps.len() == 0 {
    } else if ps.len() == 1 {
        lemma_special_encode_ascii(ps[0].0);
        lemma_special_encode_ascii(ps[0].1);
        lemma_ascii_concat(special_encode(ps[0].0), encode_utf8("="@));
        lemma_ascii_concat(special_encode(ps[0].0) + encode_utf8("="@), special_encode(ps[0].1));
    } else {
        lemma_query_string_ascii(ps.drop_last());
        lemma_special_encode_ascii(ps.last().0);
        lemma_special_encode_ascii(ps.last().1);
        lemma_ascii_concat(special_encode(ps.last().0), encode_utf8("="@));
        lemma_ascii_concat(
            special_encode(ps.last().0) + encode_utf8("="@),
            special_encode(ps.last().1),
        );
        lemma_ascii_concat(query_string_of(ps.drop_last()), encode_utf8("&"@));
        lemma_ascii_concat(
            query_string_of(ps.drop_last()) + encode_utf8("&"@),
            pair_encoding(ps.last()),
        );
    }
}

/// UTF-8 encoding distributes over concatenation.
proof fn lemma_encode_utf8_concat(a: Seq<char>, b: Seq<char>)
    ensures
        encode_utf8(a + b) == encode_utf8(a) + encode_utf8(b),
    decreases a.len(),
{
    if a.len() == 0 {
        assert(a + b =~= b);
        assert(encode_utf8(a) + encode_utf8(b) =~= encode_utf8(b));
    } else {
        assert((a + b).len() > 0);
        assert((a + b)[0] == a[0]);
        assert((a + b).drop_first() =~= a.drop_first() + b);
        lemma_encode_utf8_concat(a.drop_first(), b);
        assert(encode_utf8(a + b) =~= encode_utf8(a) + encode_utf8(b));
    }
}

/// Joins the recipients with commas, as raw bytes.
pub fn join_phones(phones: &Vec<String>) -> (r: Vec<u8>)
    ensures
        r@ == join_comma(phones_bytes(phones@)),
{
    let n = phones.len();
    let mut out: Vec<u8> = Vec::new();
    let mut i: usize = 0;
    proof {
        assert(phones_bytes(phones@).take(0) =~= phones_bytes(phones@.take(0)));
        assert(out@ =~= join_comma(phones_bytes(phones@).take(0)));
    }
    while i < n
        invariant
            n == phones@.len(),
            i <= n,
            out@ == join_comma(phones_bytes(phones@).take(i as int)),
        decreases n - i,
    {
        let ghost t = phones_bytes(phones@);
        if i > 0 {
            let mut c = slice_to_vec(",".as_bytes());
            out.append(&mut c);
        }
        let mut pb = slice_to_vec(phones[i].as_str().as_bytes());
        out.append(&mut pb);
        proof {
            assert(t.take(i + 1).drop_last() =~= t.take(i as int));
            assert(t.take(i + 1).last() == t[i as int]);
            assert(t[i as int] == encode_utf8(phones@[i as int]@));
            if i == 0 {
                assert(out@ =~= join_comma(t.take(1)));
            } else {
                assert(out@ =~= join_comma(t.take(i + 1)));
            }
        }
        i += 1;
    }
    proof {
        assert(phones_bytes(phones@).take(n as int) =~= phones_bytes(phones@));
    }
    out
}

/// A parameter whose key and value are both string literals or fields.
fn str_param(key: &str, value: &str) -> (p: Param)
    ensures
        p@ == (encode_utf8(key@), encode_utf8(value@)),
{
    Param { key: slice_to_vec(key.as_bytes()), value: slice_to_vec(value.as_bytes()) }
}

/// A parameter whose value is already raw bytes.
fn bytes_param(key: &str, value: Vec<u8>) -> (p: Param)
    ensures
        p@ == (encode_utf8(key@), value@),
{
    Param { key: slice_to_vec(key.as_bytes()), value }
}

/// Assembles the thirteen request parameters and sorts them into the
/// canonical order. Regardless of the order the parameters are pushed
/// in, the result is exactly the canonical sequence.
pub fn build_params(
    access_key: &str,
    sign_name: &str,
    template_code: &str,
    ts: &str,
    param_json: &str,
    nonce: &str,
    phones_joined: Vec<u8>,
) -> (r: Vec<Param>)
    ensures
        params_view(r@) == canonical_pairs(
            encode_utf8(access_key@),
            encode_utf8(sign_name@),
            encode_utf8(template_code@),
            encode_utf8(ts@),
            encode_utf8(param_json@),
            encode_utf8(nonce@),
            phones_joined@,
        ),
{
    let ghost built = built_pairs(
        encode_utf8(access_key@),
        encode_utf8(sign_name@),
        encode_utf8(template_code@),
        encode_utf8(ts@),
        encode_utf8(param_json@),
        encode_utf8(nonce@),
        phones_joined@,
    );
    let mut v: Vec<Param> = Vec::new();
    v.push(str_param("Action", "SendSms"));
    v.push(str_param("Format", "JSON"));
    v.push(str_param("RegionId", "cn-hangzhou"));
    v.push(str_param("SignatureMethod", "HMAC-SHA1"));
    v.push(str_param("SignatureVersion", "1.0"));
    v.push(str_param("Version", "2017-05-25"));
    v.push(str_param("AccessKeyId", access_key));
    v.push(str_param("SignName", sign_name));
    v.push(str_param("TemplateCode", template_code));
    v.push(str_param("Timestamp", ts));
    v.push(str_param("TemplateParam", param_json));
    v.push(str_param("SignatureNonce", nonce));
    v.push(bytes_param("PhoneNumbers", phones_joined));
    proof {
        assert(params_view(v@) =~= built);
    }
    let r = sort_params(v);
    proof {
        lemma_pair_le_total_ordering();
        built.lemma_sort_by_ensures(pair_le_fn());
        assert(params_view(r@).to_multiset() == built.sort_by(pair_le_fn()).to_multiset());
        lemma_sorted_multiset_unique(params_view(r@), built.sort_by(pair_le_fn()));
    }
    r
}

/// Serializes the sorted parameters as `key=value` pairs joined with
/// `&`, each side percent-encoded.
pub fn canonical_query_string(params: &Vec<Param>) -> (r: Vec<u8>)
    ensures
        r@ == query_string_of(params_view(params@)),
{
    let n = params.len();
    let mut out: Vec<u8> = Vec::new();
    let mut i: usize = 0;
    proof {
        assert(out@ =~= query_string_of(params_view(params@).take(0)));
    }
    while i < n
        invariant
            n == params@.len(),
            i <= n,
            out@ == query_string_of(params_view(params@).take(i as int)),
        decreases n - i,
    {
        let ghost t = params_view(params@);
        if i > 0 {
            let mut c = slice_to_vec("&".as_bytes());
            out.append(&mut c);
        }
        let mut ek = special_url_encode_bytes(params[i].key.as_slice());
        out.append(&mut ek);
        let mut eq = slice_to_vec("=".as_bytes());
        out.append(&mut eq);
        let mut ev = special_url_encode_bytes(params[i].value.as_slice());
        out.append(&mut ev);
        proof {
            assert(t.take(i + 1).drop_last() =~= t.take(i as int));
            assert(t.take(i + 1).last() == t[i as int]);
            assert(t[i as int] == params@[i as int]@);
            if i == 0 {
                assert(out@ =~= pair_encoding(t[0]));
                assert(out@ =~= query_string_of(t.take(1)));
            } else {
                assert(out@ =~= query_string_of(t.take(i + 1)));
            }
        }
        i += 1;
    }
    proof {
        assert(params_view(params@).take(n as int) =~= params_view(params@));
    }
    out
}

/// Derives the string-to-sign from the canonical query string.
pub fn string_to_sign(qs: &Vec<u8>) -> (r: Vec<u8>)
    ensures
        r@ == string_to_sign_of(qs@),
{
    let mut out = slice_to_vec("GET&".as_bytes());
    let mut slash = special_url_encode_bytes("/".as_bytes());
    out.append(&mut slash);
    let mut amp = slice_to_vec("&".as_bytes());
    out.append(&mut amp);
    let mut encq = special_url_encode_bytes(qs.as_slice());
    out.append(&mut encq);
    proof {
        assert(out@ =~= string_to_sign_of(qs@));
    }
    out
}

/// Relies on chrono's `Utc::now` and `DateTime::format`: the current UTC
/// time rendered as `YYYY-MM-DDTHH:MM:SSZ`; the value depends on the wall
/// clock, so nothing is promised of it.
#[verifier::external_body]
fn utc_timestamp() -> String {
    format!("{}", chrono::Utc::now().format("%Y-%m-%dT%H:%M:%SZ"))
}

/// Relies on chrono's `Local::now` and `timestamp_subsec_nanos`: a nonce
/// drawn from the clock's sub-second fraction; the value depends on the
/// wall clock, so nothing is promised of it.
#[verifier::external_body]
fn subsec_nonce() -> String {
    format!("{}", chrono::Local::now().timestamp_subsec_nanos())
}

impl Client {
    /// Assembles the signed request URL for the given timestamp and
    /// nonce. The result is pinned byte for byte as a function of the
    /// credentials, the request fields, the timestamp and the nonce:
    /// with all inputs fixed, the URL is reproducible exactly.
    pub fn send_sms_url(&self, req: &SmsRequest, ts: &str, nonce: &str) -> (u: String)
        ensures
            encode_utf8(u@) == sms_url_of(
                encode_utf8(self.access_key@),
                encode_utf8(self.secret@),
                encode_utf8(req.sign_name@),
                encode_utf8(req.template_code@),
                encode_utf8(req.param@),
                join_comma(phones_bytes(req.phones@)),
                encode_utf8(ts@),
                encode_utf8(nonce@),
            ),
    {
        let phones = join_phones(&req.phones);
        let params = build_params(
            self.access_key.as_str(),
            req.sign_name.as_str(),
            req.template_code.as_str(),
            ts,
            req.param.as_str(),
            nonce,
            phones,
        );
        let qs = canonical_query_string(&params);
        let sts = string_to_sign(&qs);
        let mut key = slice_to_vec(self.secret.as_str().as_bytes());
        let mut amp = slice_to_vec("&".as_bytes());
        key.append(&mut amp);
        let sig = sign_bytes(key.as_slice(), sts.as_slice());
        let sig_enc = special_url_encode(sig.as_str());
        proof {
            lemma_query_string_ascii(params_view(params@));
        }
        let qs_str = ascii_to_string(qs);
        let mut url = "http://dysmsapi.aliyuncs.com/?Signature=".to_owned();
        url.append(sig_enc.as_str());
        url.append("&");
        url.append(qs_str.as_str());
        proof {
            let pre = "http://dysmsapi.aliyuncs.com/?Signature="@;
            lemma_encode_utf8_concat(pre, sig_enc@);
            lemma_encode_utf8_concat(pre + sig_enc@, "&"@);
            lemma_encode_utf8_concat(pre + sig_enc@ + "&"@, qs_str@);
            assert(url@ =~= pre + sig_enc@ + "&"@ + qs_str@);
            assert(encode_utf8(url@) =~= sms_url_of(
                encode_utf8(self.access_key@),
                encode_utf8(self.secret@),
                encode_utf8(req.sign_name@),
                encode_utf8(req.template_code@),
                encode_utf8(req.param@),
                join_comma(phones_bytes(req.phones@)),
                encode_utf8(ts@),
                encode_utf8(nonce@),
            ));
        }
        url
    }

    /// Assembles the signed request URL using the wall clock for the
    /// timestamp and the nonce: the result is the canonical URL for
    /// *some* timestamp and nonce string.
    pub fn sms_url(&self, req: &SmsRequest) -> (u: String)
        ensures
            exists|ts: Seq<char>, nonce: Seq<char>|
                encode_utf8(u@) == sms_url_of(
                    encode_utf8(self.access_key@),
                    encode_utf8(self.secret@),
                    encode_utf8(req.sign_name@),
                    encode_utf8(req.template_code@),
                    encode_utf8(req.param@),
                    join_comma(phones_bytes(req.phones@)),
                    encode_utf8(ts),
                    encode_utf8(nonce),
                ),
    {
        let ts = utc_timestamp();
        let nonce = subsec_nonce();
        let u = self.send_sms_url(req, ts.as_str(), nonce.as_str());
        proof {
            assert(encode_utf8(u@) == sms_url_of(
                encode_utf8(self.access_key@),
                encode_utf8(self.secret@),
                encode_utf8(req.sign_name@),
                encode_utf8(req.template_code@),
                encode_utf8(req.param@),
                join_comma(phones_bytes(req.phones@)),
                encode_utf8(ts@),
                encode_utf8(nonce@),
            ));
        }
        u
    }
}

/// The UTF-8 bytes of the thirteen parameter names.
proof fn lemma_key_bytes()
    ensures
        encode_utf8("Action"@) =~= seq![65u8, 99u8, 116u8, 105u8, 111u8, 110u8],
        encode_utf8("Format"@) =~= seq![70u8, 111u8, 114u8, 109u8, 97u8, 116u8],
        encode_utf8("RegionId"@) =~= seq![82u8, 101u8, 103u8, 105u8, 111u8, 110u8, 73u8, 100u8],
        encode_utf8("SignatureMethod"@) =~= seq![
            83u8, 105u8, 103u8, 110u8, 97u8, 116u8, 117u8, 114u8, 101u8, 77u8, 101u8, 116u8,
            104u8, 111u8, 100u8,
        ],
        encode_utf8("SignatureVersion"@) =~= seq![
            83u8, 105u8, 103u8, 110u8, 97u8, 116u8, 117u8, 114u8, 101u8, 86u8, 101u8, 114u8,
            115u8, 105u8, 111u8, 110u8,
        ],
        encode_utf8("Version"@) =~= seq![86u8, 101u8, 114u8, 115u8, 105u8, 111u8, 110u8],
        encode_utf8("AccessKeyId"@) =~= seq![
            65u8, 99u8, 99u8, 101u8, 115u8, 115u8, 75u8, 101u8, 121u8, 73u8, 100u8,
        ],
        encode_utf8("SignName"@) =~= seq![83u8, 105u8, 103u8, 110u8, 78u8, 97u8, 109u8, 101u8],
        encode_utf8("TemplateCode"@) =~= seq![
            84u8, 101u8, 109u8, 112u8, 108u8, 97u8, 116u8, 101u8, 67u8, 111u8, 100u8, 101u8,
        ],
        encode_utf8("Timestamp"@) =~= seq![
            84u8, 105u8, 109u8, 101u8, 115u8, 116u8, 97u8, 109u8, 112u8,
        ],
        encode_utf8("TemplateParam"@) =~= seq![
            84u8, 101u8, 109u8, 112u8, 108u8, 97u8, 116u8, 101u8, 80u8, 97u8, 114u8, 97u8, 109u8,
        ],
        encode_utf8("SignatureNonce"@) =~= seq![
            83u8, 105u8, 103u8, 110u8, 97u8, 116u8, 117u8, 114u8, 101u8, 78u8, 111u8, 110u8,
            99u8, 101u8,
        ],
        encode_utf8("PhoneNumbers"@) =~= seq![
            80u8, 104u8, 111u8, 110u8, 101u8, 78u8, 117u8, 109u8, 98u8, 101u8, 114u8, 115u8,
        ],
{
    reveal_strlit("Action");
    reveal_strlit("Format");
    reveal_strlit("RegionId");
    reveal_strlit("SignatureMethod");
    reveal_strlit("SignatureVersion");
    reveal_strlit("Version");
    reveal_strlit("AccessKeyId");
    reveal_strlit("SignName");
    reveal_strlit("TemplateCode");
    reveal_strlit("Timestamp");
    reveal_strlit("TemplateParam");
    reveal_strlit("SignatureNonce");
    reveal_strlit("PhoneNumbers");
    assert(is_ascii_chars("Action"@));
    assert(is_ascii_chars("Format"@));
    assert(is_ascii_chars("RegionId"@));
    assert(is_ascii_chars("SignatureMethod"@));
    assert(is_ascii_chars("SignatureVersion"@));
    assert(is_ascii_chars("Version"@));
    assert(is_ascii_chars("AccessKeyId"@));
    assert(is_ascii_chars("SignName"@));
    assert(is_ascii_chars("TemplateCode"@));
    assert(is_ascii_chars("Timestamp"@));
    assert(is_ascii_chars("TemplateParam"@));
    assert(is_ascii_chars("SignatureNonce"@));
    assert(is_ascii_chars("PhoneNumbers"@));
    is_ascii_chars_encode_utf8("Action"@);
    is_ascii_chars_encode_utf8("Format"@);
    is_ascii_chars_encode_utf8("RegionId"@);
    is_ascii_chars_encode_utf8("SignatureMethod"@);
    is_ascii_chars_encode_utf8("SignatureVersion"@);
    is_ascii_chars_encode_utf8("Version"@);
    is_ascii_chars_encode_utf8("AccessKeyId"@);
    is_ascii_chars_encode_utf8("SignName"@);
    is_ascii_chars_encode_utf8("TemplateCode"@);
    is_ascii_chars_encode_utf8("Timestamp"@);
    is_ascii_chars_encode_utf8("TemplateParam"@);
    is_ascii_chars_encode_utf8("SignatureNonce"@);
    is_ascii_chars_encode_utf8("PhoneNumbers"@);
}

/// Whatever the parameter values and whatever order the builder appends
/// them in, the canonical parameter sequence lists its keys in strictly
/// ascending byte-lexicographic order.
pub proof fn lemma_canonical_keys_strictly_ascending(
    access: Seq<u8>,
    sign_name: Seq<u8>,
    template: Seq<u8>,
    ts: Seq<u8>,
    param: Seq<u8>,
    nonce: Seq<u8>,
    phones: Seq<u8>,
)
    ensures
        forall|i: int, j: int|
            0 <= i < j < canonical_pairs(access, sign_name, template, ts, param, nonce, phones).len()
                ==> lex_lt(
                #[trigger] canonical_pairs(access, sign_name, template, ts, param, nonce, phones)[i].0,
                #[trigger] canonical_pairs(access, sign_name, template, ts, param, nonce, phones)[j].0,
            ),
{
    let built = built_pairs(access, sign_name, template, ts, param, nonce, phones);
    let c = canonical_pairs(access, sign_name, template, ts, param, nonce, phones);
    lemma_key_bytes();
    assert(distinct_keys(built)) by {
        assert forall|i: int, j: int| 0 <= i < j < built.len() implies built[i].0 != built[j].0 by {
            assert(built[0].0[0] == 65 && built[0].0.len() == 6);
            assert(built[1].0[0] == 70 && built[1].0.len() == 6);
            assert(built[2].0[0] == 82 && built[2].0.len() == 8);
            assert(built[3].0[0] == 83 && built[3].0.len() == 15);
            assert(built[4].0[0] == 83 && built[4].0.len() == 16);
            assert(built[5].0[0] == 86 && built[5].0.len() == 7);
            assert(built[6].0[0] == 65 && built[6].0.len() == 11);
            assert(built[7].0[0] == 83 && built[7].0.len() == 8);
            assert(built[8].0[0] == 84 && built[8].0.len() == 12);
            assert(built[9].0[0] == 84 && built[9].0.len() == 9);
            assert(built[10].0[0] == 84 && built[10].0.len() == 13);
            assert(built[11].0[0] == 83 && built[11].0.len() == 14);
            assert(built[12].0[0] == 80 && built[12].0.len() == 12);
        }
    }
    lemma_pair_le_total_ordering();
    built.lemma_sort_by_ensures(pair_le_fn());
    lemma_distinct_keys_preserved(built, c);
    assert forall|i: int, j: int| 0 <= i < j < c.len() implies lex_lt(c[i].0, c[j].0) by {
        assert(pair_le_fn()(c[i], c[j]));
        assert(c[i].0 != c[j].0);
    }
}

/// Classifies a parsed reply: code `OK` is success, anything else is an
/// application error carrying the provider's message.
pub fn interpret_response(resp: SmsResponse) -> (r: Result<(), Error>)
    ensures
        resp.code@ == "OK"@ ==> r == Result::<(), Error>::Ok(()),
        resp.code@ != "OK"@ ==> r == Result::<(), Error>::Err(Error::Internal(resp.message)),
{
    let ok = "OK".to_owned();
    if resp.code == ok {
        Ok(())
    } else {
        Err(Error::Internal(resp.message))
    }
}

/// Finishes one exchange. A transport failure is surfaced as a transport
/// error carrying the underlying cause, with no reply inspected at all;
/// a parsed reply is classified by its code alone.
pub fn complete_send(outcome: Result<SmsResponse, String>) -> (r: Result<(), Error>)
    ensures
        outcome matches Err(m) ==> r == Result::<(), Error>::Err(Error::Reqwest(m)),
        outcome matches Ok(resp) ==> {
            &&& resp.code@ == "OK"@ ==> r == Result::<(), Error>::Ok(())
            &&& resp.code@ != "OK"@ ==> r == Result::<(), Error>::Err(
                Error::Internal(resp.message),
            )
        },
{
    match outcome {
        Ok(resp) => interpret_response(resp),
        Err(m) => Err(Error::Reqwest(m)),
    }
}

} // verus!
