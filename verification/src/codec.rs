//! The structured log line format: one JSON object per line, rendered
//! and parsed byte by byte, with a proved round trip for every well
//! formed sample.

use vstd::prelude::*;

use crate::model::{plain_char, CheckError, CheckErrorV, CheckTarget, Connectivity, InternetCheckResult, Latency, LatencySpeed, SampleV, TargetResult, TargetV};
use crate::strutil;
use crate::time::{digits_value, pow10};
use vstd::arithmetic::div_mod::lemma_fundamental_div_mod;

verus! {

// ---------------------------------------------------------------------------
// Byte classes
// ---------------------------------------------------------------------------
/// An ASCII decimal digit.
pub open spec fn is_digit_byte(b: u8) -> bool {
    48 <= b <= 57
}

/// A byte that may stand inside a quoted string of a log line: printable
/// ASCII, but neither a quote nor a backslash.
pub open spec fn plain_byte(b: u8) -> bool {
    32 <= b <= 126 && b != 34 && b != 92
}

/// All bytes plain.
pub open spec fn plain_bytes(s: Seq<u8>) -> bool {
    forall|i: int| 0 <= i < s.len() ==> plain_byte(#[trigger] s[i])
}

/// Plain text and its ASCII bytes stand for each other exactly.
pub proof fn lemma_plain_text_bytes(m: Seq<char>)
    requires
        crate::model::plain_text(m),
    ensures
        plain_bytes(strutil::bytes_of_chars(m)),
        strutil::ascii_bytes(strutil::bytes_of_chars(m)),
        strutil::chars_of(strutil::bytes_of_chars(m)) == m,
{
    assert forall|i: int| 0 <= i < m.len() implies plain_byte(
        #[trigger] strutil::bytes_of_chars(m)[i],
    ) && strutil::bytes_of_chars(m)[i] < 128 by {
        assert(plain_char(m[i]));
    }
    assert(strutil::chars_of(strutil::bytes_of_chars(m)) =~= m) by {
        assert forall|i: int| 0 <= i < m.len() implies strutil::chars_of(
            strutil::bytes_of_chars(m),
        )[i] == m[i] by {
            assert(plain_char(m[i]));
        }
    }
}

/// Plain bytes read back as plain text.
pub proof fn lemma_plain_bytes_text(s: Seq<u8>)
    requires
        plain_bytes(s),
    ensures
        crate::model::plain_text(strutil::chars_of(s)),
        strutil::bytes_of_chars(strutil::chars_of(s)) == s,
{
    assert forall|i: int| 0 <= i < s.len() implies plain_char(
        #[trigger] strutil::chars_of(s)[i],
    ) by {
        assert(plain_byte(s[i]));
    }
    assert(strutil::bytes_of_chars(strutil::chars_of(s)) =~= s);
}

// ---------------------------------------------------------------------------
// Primitive parsers (specification)
// ---------------------------------------------------------------------------
/// Position after a fixed token, when the input carries it at `i`.
pub open spec fn expect(s: Seq<u8>, i: int, tok: Seq<u8>) -> Option<int> {
    if 0 <= i && i + tok.len() <= s.len() && s.subrange(i, i + tok.len()) == tok {
        Option::Some(i + tok.len())
    } else {
        Option::None
    }
}

/// A token at the seam of a concatenation is found there.
pub proof fn lemma_expect_concat(pre: Seq<u8>, tok: Seq<u8>, rest: Seq<u8>)
    ensures
        expect(pre + tok + rest, pre.len() as int, tok) == Option::Some(
            pre.len() + tok.len() as int,
        ),
{
    let s = pre + tok + rest;
    assert(s.subrange(pre.len() as int, pre.len() + tok.len() as int) =~= tok);
}

/// First position at or after `i` that does not hold a decimal digit.
pub open spec fn scan_digits_end(s: Seq<u8>, i: int) -> int
    decreases s.len() - i,
{
    if 0 <= i < s.len() && is_digit_byte(s[i]) {
        scan_digits_end(s, i + 1)
    } else {
        i
    }
}

/// The digit scan run over a known digit block ends exactly at its end.
pub proof fn lemma_scan_digits_concat(s: Seq<u8>, i: int, j: int)
    requires
        0 <= i <= j <= s.len(),
        forall|k: int| i <= k < j ==> is_digit_byte(#[trigger] s[k]),
        j == s.len() || !is_digit_byte(s[j]),
    ensures
        scan_digits_end(s, i) == j,
    decreases j - i,
{
    if i < j {
        lemma_scan_digits_concat(s, i + 1, j);
    }
}

/// Growing a digit run never shrinks its value.
pub proof fn lemma_digits_value_prefix_le(s: Seq<u8>, i: int, k: int, j: int)
    requires
        0 <= i <= k <= j <= s.len(),
    ensures
        digits_value(s.subrange(i, k)) <= digits_value(s.subrange(i, j)),
    decreases j - k,
{
    if k < j {
        lemma_digits_value_prefix_le(s, i, k, j - 1);
        assert(s.subrange(i, j).drop_last() =~= s.subrange(i, j - 1));
        assert(digits_value(s.subrange(i, j)) == digits_value(s.subrange(i, j - 1)) * 10 + (
        if s.subrange(i, j).last() >= 48 {
            (s.subrange(i, j).last() - 48) as nat
        } else {
            0
        }));
    }
}

/// A number: one or more decimal digits whose value fits in a `u64`.
pub open spec fn parse_u64(s: Seq<u8>, i: int) -> Option<(u64, int)> {
    let j = scan_digits_end(s, i);
    if j > i && digits_value(s.subrange(i, j)) <= u64::MAX {
        Option::Some((digits_value(s.subrange(i, j)) as u64, j))
    } else {
        Option::None
    }
}

/// Parsing right after a rendered number yields the number back, when the
/// next byte is not a digit.
pub proof fn lemma_parse_u64_concat(pre: Seq<u8>, n: u64, rest: Seq<u8>)
    requires
        rest.len() == 0 || !is_digit_byte(rest[0]),
    ensures
        parse_u64(pre + crate::time::dec_digits(n as nat) + rest, pre.len() as int)
            == Option::Some((n, pre.len() + crate::time::dec_digits(n as nat).len() as int)),
{
    let d = crate::time::dec_digits(n as nat);
    let s = pre + d + rest;
    let i = pre.len() as int;
    let j = i + d.len();
    crate::time::lemma_dec_digits_ascii(n as nat);
    assert forall|k: int| i <= k < j implies is_digit_byte(#[trigger] s[k]) by {
        assert(s[k] == d[k - i]);
    }
    if j < s.len() {
        assert(s[j] == rest[0]);
    }
    lemma_scan_digits_concat(s, i, j);
    assert(s.subrange(i, j) =~= d);
    crate::time::lemma_dec_digits_value(n as nat);
}

/// First position at or after `i` that does not hold a plain byte.
pub open spec fn scan_plain_end(s: Seq<u8>, i: int) -> int
    decreases s.len() - i,
{
    if 0 <= i < s.len() && plain_byte(s[i]) {
        scan_plain_end(s, i + 1)
    } else {
        i
    }
}

/// The plain-byte scan over a known plain block ends exactly at its end.
pub proof fn lemma_scan_plain_concat(s: Seq<u8>, i: int, j: int)
    requires
        0 <= i <= j <= s.len(),
        forall|k: int| i <= k < j ==> plain_byte(#[trigger] s[k]),
        j == s.len() || !plain_byte(s[j]),
    ensures
        scan_plain_end(s, i) == j,
    decreases j - i,
{
    if i < j {
        lemma_scan_plain_concat(s, i + 1, j);
    }
}

/// A quoted string of plain bytes: `"` content `"`. Yields the content.
pub open spec fn parse_quoted(s: Seq<u8>, i: int) -> Option<(Seq<u8>, int)> {
    if 0 <= i < s.len() && s[i] == 34 {
        let j = scan_plain_end(s, i + 1);
        if j < s.len() && s[j] == 34 {
            Option::Some((s.subrange(i + 1, j), j + 1))
        } else {
            Option::None
        }
    } else {
        Option::None
    }
}

/// The rendering of a quoted plain string.
pub open spec fn quoted(content: Seq<u8>) -> Seq<u8> {
    seq![34u8] + content + seq![34u8]
}

/// Parsing right after a rendered quoted string yields its content back.
pub proof fn lemma_parse_quoted_concat(pre: Seq<u8>, content: Seq<u8>, rest: Seq<u8>)
    requires
        plain_bytes(content),
    ensures
        parse_quoted(pre + quoted(content) + rest, pre.len() as int) == Option::Some(
            (content, pre.len() + content.len() + 2int),
        ),
{
    let s = pre + quoted(content) + rest;
    let i = pre.len() as int;
    let j = i + 1 + content.len();
    assert(s[i] == 34);
    assert forall|k: int| i + 1 <= k < j implies plain_byte(#[trigger] s[k]) by {
        assert(s[k] == content[k - (i + 1)]);
    }
    assert(s[j] == 34);
    lemma_scan_plain_concat(s, i + 1, j);
    assert(s.subrange(i + 1, j) =~= content);
}

// ---------------------------------------------------------------------------
// Primitive parsers (executable)
// ---------------------------------------------------------------------------
/// Checks a fixed token at position `i`.
pub fn expect_x(s: &[u8], i: usize, tok: &[u8]) -> (r: Option<usize>)
    requires
        i <= s@.len(),
    ensures
        (match r {
            Option::Some(j) => Option::Some(j as int),
            Option::None => Option::None,
        }) == expect(s@, i as int, tok@),
        r is Some ==> i <= r->0 <= s@.len(),
{
    let n: usize = s.len();
    if n - i < tok.len() {
        proof {
            if expect(s@, i as int, tok@) is Some {
                assert(i + tok@.len() <= s@.len());
            }
        }
        return Option::None;
    }
    let mut k: usize = 0;
    while k < tok.len()
        invariant
            k <= tok@.len(),
            n == s@.len(),
            i + tok@.len() <= n,
            forall|t: int| 0 <= t < k ==> s@[i + t] == tok@[t],
        decreases tok@.len() - k,
    {
        if s[i + k] != tok[k] {
            proof {
                assert(s@.subrange(i as int, i + tok@.len())[k as int] != tok@[k as int]);
            }
            return Option::None;
        }
        k = k + 1;
    }
    proof {
        assert(s@.subrange(i as int, i + tok@.len()) =~= tok@);
    }
    Option::Some(i + tok.len())
}

/// Reads a decimal number at position `i`.
pub fn parse_u64_x(s: &[u8], i: usize) -> (r: Option<(u64, usize)>)
    requires
        i <= s@.len(),
    ensures
        (match r {
            Option::Some((v, j)) => Option::Some((v, j as int)),
            Option::None => Option::None,
        }) == parse_u64(s@, i as int),
        r is Some ==> i <= (r->0).1 <= s@.len(),
{
    let ghost jj = scan_digits_end(s@, i as int);
    let mut j: usize = i;
    while j < s.len() && 48 <= s[j] && s[j] <= 57
        invariant
            i <= j <= s@.len(),
            forall|k: int| i <= k < j ==> is_digit_byte(#[trigger] s@[k]),
            scan_digits_end(s@, j as int) == scan_digits_end(s@, i as int),
        decreases s@.len() - j,
    {
        j = j + 1;
    }
    proof {
        assert(scan_digits_end(s@, jj) == jj);
        assert(jj == j as int);
    }
    if j == i {
        return Option::None;
    }
    let mut acc: u64 = 0;
    let mut k: usize = i;
    while k < j
        invariant
            i <= k <= j <= s@.len(),
            i < j,
            scan_digits_end(s@, i as int) == j as int,
            forall|t: int| i <= t < j ==> is_digit_byte(#[trigger] s@[t]),
            acc == digits_value(s@.subrange(i as int, k as int)),
        decreases j - k,
    {
        let d: u64 = (s[k] - 48) as u64;
        proof {
            assert(s@.subrange(i as int, k + 1 as int).drop_last() =~= s@.subrange(
                i as int,
                k as int,
            ));
            assert(s@.subrange(i as int, k + 1 as int).last() == s@[k as int]);
        }
        if acc > (u64::MAX - d) / 10 {
            proof {
                assert(digits_value(s@.subrange(i as int, k + 1 as int)) == acc * 10 + d);
                assert(acc * 10 + d > u64::MAX) by (nonlinear_arith)
                    requires
                        acc > (u64::MAX - d) / 10,
                        d <= 9,
                {
                    lemma_fundamental_div_mod((u64::MAX - d) as int, 10);
                }
                lemma_digits_value_prefix_le(s@, i as int, k + 1, j as int);
            }
            return Option::None;
        }
        proof {
            assert(acc * 10 + d <= u64::MAX) by (nonlinear_arith)
                requires
                    acc <= (u64::MAX - d) / 10,
                    d <= 9,
            {
                lemma_fundamental_div_mod((u64::MAX - d) as int, 10);
            }
        }
        acc = acc * 10 + d;
        k = k + 1;
    }
    proof {
        assert(s@.subrange(i as int, j as int) == s@.subrange(i as int, k as int));
    }
    Option::Some((acc, j))
}

/// Reads a quoted string of plain bytes at position `i`, returning its
/// content.
pub fn parse_quoted_x(s: &[u8], i: usize) -> (r: Option<(Vec<u8>, usize)>)
    requires
        i <= s@.len(),
    ensures
        (match r {
            Option::Some((v, j)) => Option::Some((v@, j as int)),
            Option::None => Option::None,
        }) == parse_quoted(s@, i as int),
        r is Some ==> i <= (r->0).1 <= s@.len(),
{
    if i >= s.len() || s[i] != 34 {
        return Option::None;
    }
    let mut j: usize = i + 1;
    while j < s.len() && 32 <= s[j] && s[j] <= 126 && s[j] != 34 && s[j] != 92
        invariant
            i + 1 <= j <= s@.len(),
            forall|k: int| i + 1 <= k < j ==> plain_byte(#[trigger] s@[k]),
            scan_plain_end(s@, j as int) == scan_plain_end(s@, i + 1),
        decreases s@.len() - j,
    {
        j = j + 1;
    }
    proof {
        assert(scan_plain_end(s@, j as int) == j as int);
    }
    if j >= s.len() || s[j] != 34 {
        return Option::None;
    }
    let mut content: Vec<u8> = Vec::new();
    let mut k: usize = i + 1;
    while k < j
        invariant
            i + 1 <= k <= j <= s@.len(),
            content@ == s@.subrange(i + 1, k as int),
        decreases j - k,
    {
        content.push(s[k]);
        k = k + 1;
        proof {
            assert(content@ =~= s@.subrange(i + 1, k as int));
        }
    }
    proof {
        assert(content@ =~= s@.subrange(i + 1, j as int));
    }
    Option::Some((content, j + 1))
}


// ---------------------------------------------------------------------------
// Tokens and fixed segments of the log line format
// ---------------------------------------------------------------------------
/// `Online`.
pub open spec fn tok_online() -> Seq<u8> {
    seq![79u8, 110u8, 108u8, 105u8, 110u8, 101u8]
}

/// `Offline`.
pub open spec fn tok_offline() -> Seq<u8> {
    seq![79u8, 102u8, 102u8, 108u8, 105u8, 110u8, 101u8]
}

/// `Slow`.
pub open spec fn tok_slow() -> Seq<u8> {
    seq![83u8, 108u8, 111u8, 119u8]
}

/// `Ok`.
pub open spec fn tok_ok() -> Seq<u8> {
    seq![79u8, 107u8]
}

/// `Google`.
pub open spec fn tok_google() -> Seq<u8> {
    seq![71u8, 111u8, 111u8, 103u8, 108u8, 101u8]
}

/// `Example`.
pub open spec fn tok_example() -> Seq<u8> {
    seq![69u8, 120u8, 97u8, 109u8, 112u8, 108u8, 101u8]
}

/// `IP`.
pub open spec fn tok_ip() -> Seq<u8> {
    seq![73u8, 80u8]
}

/// `true`.
pub open spec fn tok_true() -> Seq<u8> {
    seq![116u8, 114u8, 117u8, 101u8]
}

/// `false`.
pub open spec fn tok_false() -> Seq<u8> {
    seq![102u8, 97u8, 108u8, 115u8, 101u8]
}

/// `null`.
pub open spec fn tok_null() -> Seq<u8> {
    seq![110u8, 117u8, 108u8, 108u8]
}

/// `Timeout`.
pub open spec fn tok_timeout() -> Seq<u8> {
    seq![84u8, 105u8, 109u8, 101u8, 111u8, 117u8, 116u8]
}

/// `DnsFailure`.
pub open spec fn tok_dns() -> Seq<u8> {
    seq![68u8, 110u8, 115u8, 70u8, 97u8, 105u8, 108u8, 117u8, 114u8, 101u8]
}

/// `ConnectionRefused`.
pub open spec fn tok_refused() -> Seq<u8> {
    seq![
        67u8, 111u8, 110u8, 110u8, 101u8, 99u8, 116u8, 105u8, 111u8, 110u8, 82u8, 101u8, 102u8, 117u8, 115u8,
        101u8, 100u8,
    ]
}

/// `TlsError`.
pub open spec fn tok_tls() -> Seq<u8> {
    seq![84u8, 108u8, 115u8, 69u8, 114u8, 114u8, 111u8, 114u8]
}

/// `InvalidRequest`.
pub open spec fn tok_invalid() -> Seq<u8> {
    seq![73u8, 110u8, 118u8, 97u8, 108u8, 105u8, 100u8, 82u8, 101u8, 113u8, 117u8, 101u8, 115u8, 116u8]
}

/// `{"timestamp":`.
pub open spec fn seg_timestamp() -> Seq<u8> {
    seq![
        123u8, 34u8, 116u8, 105u8, 109u8, 101u8, 115u8, 116u8, 97u8, 109u8, 112u8, 34u8, 58u8,
    ]
}

/// `,"message":`.
pub open spec fn seg_message() -> Seq<u8> {
    seq![44u8, 34u8, 109u8, 101u8, 115u8, 115u8, 97u8, 103u8, 101u8, 34u8, 58u8]
}

/// `,"result":`.
pub open spec fn seg_result() -> Seq<u8> {
    seq![44u8, 34u8, 114u8, 101u8, 115u8, 117u8, 108u8, 116u8, 34u8, 58u8]
}

/// `,"connectivity":`.
pub open spec fn seg_connectivity() -> Seq<u8> {
    seq![
        44u8, 34u8, 99u8, 111u8, 110u8, 110u8, 101u8, 99u8, 116u8, 105u8, 118u8, 105u8, 116u8, 121u8, 34u8,
        58u8,
    ]
}

/// `,"speed":`.
pub open spec fn seg_speed() -> Seq<u8> {
    seq![44u8, 34u8, 115u8, 112u8, 101u8, 101u8, 100u8, 34u8, 58u8]
}

/// `,"results":[`.
pub open spec fn seg_results() -> Seq<u8> {
    seq![44u8, 34u8, 114u8, 101u8, 115u8, 117u8, 108u8, 116u8, 115u8, 34u8, 58u8, 91u8]
}

/// `,"avg_ms":`.
pub open spec fn seg_avg() -> Seq<u8> {
    seq![44u8, 34u8, 97u8, 118u8, 103u8, 95u8, 109u8, 115u8, 34u8, 58u8]
}

/// `{"target":`.
pub open spec fn seg_target() -> Seq<u8> {
    seq![123u8, 34u8, 116u8, 97u8, 114u8, 103u8, 101u8, 116u8, 34u8, 58u8]
}

/// `,"success":`.
pub open spec fn seg_success() -> Seq<u8> {
    seq![44u8, 34u8, 115u8, 117u8, 99u8, 99u8, 101u8, 115u8, 115u8, 34u8, 58u8]
}

/// `,"latency_ms":`.
pub open spec fn seg_latency() -> Seq<u8> {
    seq![
        44u8, 34u8, 108u8, 97u8, 116u8, 101u8, 110u8, 99u8, 121u8, 95u8, 109u8, 115u8, 34u8, 58u8,
    ]
}

/// `,"latency_speed":`.
pub open spec fn seg_latency_speed() -> Seq<u8> {
    seq![
        44u8, 34u8, 108u8, 97u8, 116u8, 101u8, 110u8, 99u8, 121u8, 95u8, 115u8, 112u8, 101u8, 101u8, 100u8,
        34u8, 58u8,
    ]
}

/// `,"status_code":`.
pub open spec fn seg_status() -> Seq<u8> {
    seq![
        44u8, 34u8, 115u8, 116u8, 97u8, 116u8, 117u8, 115u8, 95u8, 99u8, 111u8, 100u8, 101u8, 34u8, 58u8,
    ]
}

/// `,"error":`.
pub open spec fn seg_error() -> Seq<u8> {
    seq![44u8, 34u8, 101u8, 114u8, 114u8, 111u8, 114u8, 34u8, 58u8]
}

/// `{"http_status":`.
pub open spec fn seg_http() -> Seq<u8> {
    seq![
        123u8, 34u8, 104u8, 116u8, 116u8, 112u8, 95u8, 115u8, 116u8, 97u8, 116u8, 117u8, 115u8, 34u8, 58u8,
    ]
}

/// `{"other":`.
pub open spec fn seg_other() -> Seq<u8> {
    seq![123u8, 34u8, 111u8, 116u8, 104u8, 101u8, 114u8, 34u8, 58u8]
}

// ---------------------------------------------------------------------------
// Rendering (specification)
// ---------------------------------------------------------------------------
/// The keyword of a connectivity value.
pub open spec fn conn_token(c: Connectivity) -> Seq<u8> {
    match c {
        Connectivity::Online => tok_online(),
        Connectivity::Offline => tok_offline(),
    }
}

/// The keyword of a latency label.
pub open spec fn speed_token(s: LatencySpeed) -> Seq<u8> {
    match s {
        LatencySpeed::Slow => tok_slow(),
        LatencySpeed::Okay => tok_ok(),
    }
}

/// The keyword of a probe target.
pub open spec fn target_token(t: CheckTarget) -> Seq<u8> {
    match t {
        CheckTarget::Google => tok_google(),
        CheckTarget::Example => tok_example(),
        CheckTarget::IP => tok_ip(),
    }
}

/// `true` or `false`.
pub open spec fn bool_token(b: bool) -> Seq<u8> {
    if b {
        tok_true()
    } else {
        tok_false()
    }
}

/// JSON value of a classified error.
pub open spec fn error_json(e: CheckErrorV) -> Seq<u8> {
    match e {
        CheckErrorV::Timeout => quoted(tok_timeout()),
        CheckErrorV::DnsFailure => quoted(tok_dns()),
        CheckErrorV::ConnectionRefused => quoted(tok_refused()),
        CheckErrorV::TlsError => quoted(tok_tls()),
        CheckErrorV::InvalidRequest => quoted(tok_invalid()),
        CheckErrorV::HttpStatus(c) => seg_http() + crate::time::dec_digits(c as nat) + seq![125u8],
        CheckErrorV::Other(m) => seg_other() + quoted(strutil::bytes_of_chars(m)) + seq![125u8],
    }
}

/// JSON value of an optional status code.
pub open spec fn opt_code_json(c: Option<u16>) -> Seq<u8> {
    match c {
        Option::Some(v) => crate::time::dec_digits(v as nat),
        Option::None => tok_null(),
    }
}

/// JSON value of an optional classified error.
pub open spec fn opt_error_json(e: Option<CheckErrorV>) -> Seq<u8> {
    match e {
        Option::Some(v) => error_json(v),
        Option::None => tok_null(),
    }
}

/// The leading fields of a rendered target object.
pub open spec fn target_meta_json(t: TargetV) -> Seq<u8> {
    seg_target() + quoted(target_token(t.target)) + seg_success() + bool_token(t.success)
}

/// The latency fields of a rendered target object.
pub open spec fn target_latency_json(l: Latency) -> Seq<u8> {
    seg_latency() + crate::time::dec_digits(l.duration as nat) + seg_latency_speed() + quoted(
        speed_token(l.speed),
    )
}

/// The trailing fields of a rendered target object.
pub open spec fn target_extras_json(t: TargetV) -> Seq<u8> {
    seg_status() + opt_code_json(t.status_code) + seg_error() + opt_error_json(t.error)
        + seq![125u8]
}

/// JSON object of one target outcome.
pub open spec fn target_json(t: TargetV) -> Seq<u8> {
    target_meta_json(t) + target_latency_json(t.latency) + target_extras_json(t)
}

/// JSON array body of a sequence of target outcomes, comma separated.
pub open spec fn targets_json(ts: Seq<TargetV>) -> Seq<u8>
    decreases ts.len(),
{
    if ts.len() == 0 {
        Seq::empty()
    } else if ts.len() == 1 {
        target_json(ts[0])
    } else {
        target_json(ts[0]) + seq![44u8] + targets_json(ts.drop_first())
    }
}

/// The quoted timestamp opening a rendered sample object or log line.
pub open spec fn stamp_json(ts: u64) -> Seq<u8> {
    seg_timestamp() + quoted(
        crate::time::rfc3339_bytes(crate::time::utc_parts(ts as int)),
    )
}

/// The connectivity and speed labels of a rendered sample object.
pub open spec fn sample_labels_json(c: Connectivity, sp: LatencySpeed) -> Seq<u8> {
    seg_connectivity() + quoted(conn_token(c)) + seg_speed() + quoted(speed_token(sp))
}

/// The target array of a rendered sample object.
pub open spec fn sample_results_json(ts: Seq<TargetV>) -> Seq<u8> {
    seg_results() + targets_json(ts) + seq![93u8]
}

/// The mean latency field and closing brace of a rendered sample object.
pub open spec fn sample_avg_json(avg: u64) -> Seq<u8> {
    seg_avg() + crate::time::dec_digits(avg as nat) + seq![125u8]
}

/// JSON object of one sample.
pub open spec fn sample_json(s: SampleV) -> Seq<u8> {
    stamp_json(s.timestamp) + sample_labels_json(s.connectivity, s.speed) + sample_results_json(
        s.results,
    ) + sample_avg_json(s.avg)
}

/// The envelope of a rendered log line: its timestamp and message.
pub open spec fn record_env_json(ts: u64, message: Seq<char>) -> Seq<u8> {
    stamp_json(ts) + seg_message() + quoted(strutil::bytes_of_chars(message))
}

/// One whole log line (without the trailing newline): the envelope with
/// its own timestamp and message, and optionally the nested sample.
pub open spec fn record_json(ts: u64, message: Seq<char>, result: Option<SampleV>) -> Seq<u8> {
    record_env_json(ts, message) + match result {
        Option::Some(s) => seg_result() + sample_json(s) + seq![125u8],
        Option::None => seq![125u8],
    }
}

// ---------------------------------------------------------------------------
// Parsing (specification)
// ---------------------------------------------------------------------------
/// All bytes of a subrange are decimal digits.
pub open spec fn all_digits(s: Seq<u8>, i: int, j: int) -> bool {
    forall|k: int| i <= k < j ==> is_digit_byte(#[trigger] s[k])
}

/// The timestamp inside its quotes: fixed width, strictly validated. The
/// result is the UTC timestamp in milliseconds.
pub open spec fn parse_rfc(c: Seq<u8>) -> Option<u64> {
    if c.len() == 24 && c[4] == 45 && c[7] == 45 && c[10] == 84 && c[13] == 58 && c[16] == 58
        && c[19] == 46 && c[23] == 90 && all_digits(c, 0, 4) && all_digits(c, 5, 7) && all_digits(
        c,
        8,
        10,
    ) && all_digits(c, 11, 13) && all_digits(c, 14, 16) && all_digits(c, 17, 19) && all_digits(
        c,
        20,
        23,
    ) {
        let y = digits_value(c.subrange(0, 4)) as int;
        let mo = digits_value(c.subrange(5, 7)) as int;
        let d = digits_value(c.subrange(8, 10)) as int;
        let h = digits_value(c.subrange(11, 13)) as int;
        let mi = digits_value(c.subrange(14, 16)) as int;
        let sec = digits_value(c.subrange(17, 19)) as int;
        let ms = digits_value(c.subrange(20, 23)) as int;
        if crate::time::valid_date(y, mo, d) && h < 24 && mi < 60 && sec < 60 {
            Option::Some(
                (((crate::time::days_from_civil(y, mo, d) * 86400 + h * 3600 + mi * 60 + sec)
                    * 1000) + ms) as u64,
            )
        } else {
            Option::None
        }
    } else {
        Option::None
    }
}

/// A quoted keyword, mapped to a connectivity value.
pub open spec fn parse_connectivity(s: Seq<u8>, i: int) -> Option<(Connectivity, int)> {
    match parse_quoted(s, i) {
        Option::Some((c, j)) => if c == tok_online() {
            Option::Some((Connectivity::Online, j))
        } else if c == tok_offline() {
            Option::Some((Connectivity::Offline, j))
        } else {
            Option::None
        },
        Option::None => Option::None,
    }
}

/// A quoted keyword, mapped to a latency label.
pub open spec fn parse_speed(s: Seq<u8>, i: int) -> Option<(LatencySpeed, int)> {
    match parse_quoted(s, i) {
        Option::Some((c, j)) => if c == tok_slow() {
            Option::Some((LatencySpeed::Slow, j))
        } else if c == tok_ok() {
            Option::Some((LatencySpeed::Okay, j))
        } else {
            Option::None
        },
        Option::None => Option::None,
    }
}

/// A quoted keyword, mapped to a probe target.
pub open spec fn parse_target_kw(s: Seq<u8>, i: int) -> Option<(CheckTarget, int)> {
    match parse_quoted(s, i) {
        Option::Some((c, j)) => if c == tok_google() {
            Option::Some((CheckTarget::Google, j))
        } else if c == tok_example() {
            Option::Some((CheckTarget::Example, j))
        } else if c == tok_ip() {
            Option::Some((CheckTarget::IP, j))
        } else {
            Option::None
        },
        Option::None => Option::None,
    }
}

/// `true` or `false`.
pub open spec fn parse_bool(s: Seq<u8>, i: int) -> Option<(bool, int)> {
    if expect(s, i, tok_true()) is Some {
        Option::Some((true, i + 4))
    } else if expect(s, i, tok_false()) is Some {
        Option::Some((false, i + 5))
    } else {
        Option::None
    }
}

/// `null` or a status code.
pub open spec fn parse_opt_code(s: Seq<u8>, i: int) -> Option<(Option<u16>, int)> {
    if expect(s, i, tok_null()) is Some {
        Option::Some((Option::None, i + 4))
    } else {
        match parse_u64(s, i) {
            Option::Some((v, j)) => if v <= 65535 {
                Option::Some((Option::Some(v as u16), j))
            } else {
                Option::None
            },
            Option::None => Option::None,
        }
    }
}

/// A classified error value: a quoted keyword, or an object carrying a
/// status code or an opaque message.
pub open spec fn parse_error(s: Seq<u8>, i: int) -> Option<(CheckErrorV, int)> {
    if 0 <= i < s.len() && s[i] == 34 {
        match parse_quoted(s, i) {
            Option::Some((c, j)) => if c == tok_timeout() {
                Option::Some((CheckErrorV::Timeout, j))
            } else if c == tok_dns() {
                Option::Some((CheckErrorV::DnsFailure, j))
            } else if c == tok_refused() {
                Option::Some((CheckErrorV::ConnectionRefused, j))
            } else if c == tok_tls() {
                Option::Some((CheckErrorV::TlsError, j))
            } else if c == tok_invalid() {
                Option::Some((CheckErrorV::InvalidRequest, j))
            } else {
                Option::None
            },
            Option::None => Option::None,
        }
    } else if expect(s, i, seg_http()) is Some {
        match parse_u64(s, i + seg_http().len() as int) {
            Option::Some((v, j)) => if v <= 65535 && expect(s, j, seq![125u8]) is Some {
                Option::Some((CheckErrorV::HttpStatus(v as u16), j + 1))
            } else {
                Option::None
            },
            Option::None => Option::None,
        }
    } else if expect(s, i, seg_other()) is Some {
        match parse_quoted(s, i + seg_other().len() as int) {
            Option::Some((m, j)) => if expect(s, j, seq![125u8]) is Some {
                Option::Some((CheckErrorV::Other(strutil::chars_of(m)), j + 1))
            } else {
                Option::None
            },
            Option::None => Option::None,
        }
    } else {
        Option::None
    }
}

/// `null` or a classified error value.
pub open spec fn parse_opt_error(s: Seq<u8>, i: int) -> Option<(Option<CheckErrorV>, int)> {
    if expect(s, i, tok_null()) is Some {
        Option::Some((Option::None, i + 4))
    } else {
        match parse_error(s, i) {
            Option::Some((e, j)) => Option::Some((Option::Some(e), j)),
            Option::None => Option::None,
        }
    }
}

/// The leading fields of a target object: the target keyword and the
/// success flag.
pub open spec fn parse_target_meta(s: Seq<u8>, i: int) -> Option<(CheckTarget, bool, int)> {
    match expect(s, i, seg_target()) {
        Option::Some(i1) => match parse_target_kw(s, i1) {
            Option::Some((tgt, i2)) => match expect(s, i2, seg_success()) {
                Option::Some(i3) => match parse_bool(s, i3) {
                    Option::Some((b, i4)) => Option::Some((tgt, b, i4)),
                    Option::None => Option::None,
                },
                Option::None => Option::None,
            },
            Option::None => Option::None,
        },
        Option::None => Option::None,
    }
}

/// The latency fields of a target object.
pub open spec fn parse_target_latency(s: Seq<u8>, i: int) -> Option<(Latency, int)> {
    match expect(s, i, seg_latency()) {
        Option::Some(i5) => match parse_u64(s, i5) {
            Option::Some((lat, i6)) => match expect(s, i6, seg_latency_speed()) {
                Option::Some(i7) => match parse_speed(s, i7) {
                    Option::Some((spd, i8)) => Option::Some(
                        (Latency { duration: lat, speed: spd }, i8),
                    ),
                    Option::None => Option::None,
                },
                Option::None => Option::None,
            },
            Option::None => Option::None,
        },
        Option::None => Option::None,
    }
}

/// The trailing fields of a target object: status code, error, and the
/// closing brace.
pub open spec fn parse_target_extras(s: Seq<u8>, i: int) -> Option<
    (Option<u16>, Option<CheckErrorV>, int),
> {
    match expect(s, i, seg_status()) {
        Option::Some(i9) => match parse_opt_code(s, i9) {
            Option::Some((code, i10)) => match expect(s, i10, seg_error()) {
                Option::Some(i11) => match parse_opt_error(s, i11) {
                    Option::Some((err, i12)) => match expect(s, i12, seq![125u8]) {
                        Option::Some(i13) => Option::Some((code, err, i13)),
                        Option::None => Option::None,
                    },
                    Option::None => Option::None,
                },
                Option::None => Option::None,
            },
            Option::None => Option::None,
        },
        Option::None => Option::None,
    }
}

/// One target object.
pub open spec fn parse_target(s: Seq<u8>, i: int) -> Option<(TargetV, int)> {
    match parse_target_meta(s, i) {
        Option::Some((tgt, suc, j1)) => match parse_target_latency(s, j1) {
            Option::Some((lat, j2)) => match parse_target_extras(s, j2) {
                Option::Some((code, err, j3)) => Option::Some(
                    (
                        TargetV {
                            target: tgt,
                            success: suc,
                            latency: lat,
                            status_code: code,
                            error: err,
                        },
                        j3,
                    ),
                ),
                Option::None => Option::None,
            },
            Option::None => Option::None,
        },
        Option::None => Option::None,
    }
}

/// The remaining target objects of a non-empty array, each followed by a
/// comma or the closing bracket. `fuel` bounds the recursion.
pub open spec fn parse_targets_rest(s: Seq<u8>, i: int, fuel: nat) -> Option<(Seq<TargetV>, int)>
    decreases fuel,
{
    if fuel == 0 {
        Option::None
    } else {
        match parse_target(s, i) {
            Option::Some((t, j)) => if expect(s, j, seq![93u8]) is Some {
                Option::Some((seq![t], j + 1))
            } else if expect(s, j, seq![44u8]) is Some {
                match parse_targets_rest(s, j + 1, (fuel - 1) as nat) {
                    Option::Some((ts, k)) => Option::Some((seq![t] + ts, k)),
                    Option::None => Option::None,
                }
            } else {
                Option::None
            },
            Option::None => Option::None,
        }
    }
}

/// A whole target array after its opening bracket, including the closing
/// bracket.
pub open spec fn parse_targets(s: Seq<u8>, i: int) -> Option<(Seq<TargetV>, int)> {
    if expect(s, i, seq![93u8]) is Some {
        Option::Some((Seq::empty(), i + 1))
    } else {
        parse_targets_rest(s, i, s.len() as nat)
    }
}

/// The leading field of a sample object: its quoted timestamp.
pub open spec fn parse_sample_head(s: Seq<u8>, i: int) -> Option<(u64, int)> {
    match expect(s, i, seg_timestamp()) {
        Option::Some(i1) => match parse_quoted(s, i1) {
            Option::Some((tsc, i2)) => match parse_rfc(tsc) {
                Option::Some(ms) => Option::Some((ms, i2)),
                Option::None => Option::None,
            },
            Option::None => Option::None,
        },
        Option::None => Option::None,
    }
}

/// The connectivity and speed labels of a sample object.
pub open spec fn parse_sample_labels(s: Seq<u8>, i: int) -> Option<
    (Connectivity, LatencySpeed, int),
> {
    match expect(s, i, seg_connectivity()) {
        Option::Some(i3) => match parse_connectivity(s, i3) {
            Option::Some((conn, i4)) => match expect(s, i4, seg_speed()) {
                Option::Some(i5) => match parse_speed(s, i5) {
                    Option::Some((spd, i6)) => Option::Some((conn, spd, i6)),
                    Option::None => Option::None,
                },
                Option::None => Option::None,
            },
            Option::None => Option::None,
        },
        Option::None => Option::None,
    }
}

/// The target array of a sample object.
pub open spec fn parse_sample_results(s: Seq<u8>, i: int) -> Option<(Seq<TargetV>, int)> {
    match expect(s, i, seg_results()) {
        Option::Some(i7) => parse_targets(s, i7),
        Option::None => Option::None,
    }
}

/// The mean latency field and closing brace of a sample object.
pub open spec fn parse_sample_avg(s: Seq<u8>, i: int) -> Option<(u64, int)> {
    match expect(s, i, seg_avg()) {
        Option::Some(i9) => match parse_u64(s, i9) {
            Option::Some((avg, i10)) => match expect(s, i10, seq![125u8]) {
                Option::Some(i11) => Option::Some((avg, i11)),
                Option::None => Option::None,
            },
            Option::None => Option::None,
        },
        Option::None => Option::None,
    }
}

/// One sample object.
pub open spec fn parse_sample(s: Seq<u8>, i: int) -> Option<(SampleV, int)> {
    match parse_sample_head(s, i) {
        Option::Some((ms, j1)) => match parse_sample_labels(s, j1) {
            Option::Some((conn, spd, j2)) => match parse_sample_results(s, j2) {
                Option::Some((ts, j3)) => match parse_sample_avg(s, j3) {
                    Option::Some((avg, j4)) => Option::Some(
                        (
                            SampleV {
                                timestamp: ms,
                                connectivity: conn,
                                speed: spd,
                                results: ts,
                                avg: avg,
                            },
                            j4,
                        ),
                    ),
                    Option::None => Option::None,
                },
                Option::None => Option::None,
            },
            Option::None => Option::None,
        },
        Option::None => Option::None,
    }
}

/// The envelope of a log line: its own timestamp and message, read but
/// not kept.
pub open spec fn parse_record_env(s: Seq<u8>) -> Option<int> {
    match expect(s, 0, seg_timestamp()) {
        Option::Some(i1) => match parse_quoted(s, i1) {
            Option::Some((_tsc, i2)) => match expect(s, i2, seg_message()) {
                Option::Some(i3) => match parse_quoted(s, i3) {
                    Option::Some((_msg, i4)) => Option::Some(i4),
                    Option::None => Option::None,
                },
                Option::None => Option::None,
            },
            Option::None => Option::None,
        },
        Option::None => Option::None,
    }
}

/// A whole log line: the envelope and, if present, the nested sample.
/// The line must be consumed exactly.
pub open spec fn parse_record(s: Seq<u8>) -> Option<Option<SampleV>> {
    match parse_record_env(s) {
        Option::Some(i4) => if expect(s, i4, seq![125u8]) == Option::Some(s.len() as int) {
            Option::Some(Option::None)
        } else {
            match expect(s, i4, seg_result()) {
                Option::Some(i5) => match parse_sample(s, i5) {
                    Option::Some((sv, i6)) => if expect(s, i6, seq![125u8]) == Option::Some(
                        s.len() as int,
                    ) {
                        Option::Some(Option::Some(sv))
                    } else {
                        Option::None
                    },
                    Option::None => Option::None,
                },
                Option::None => Option::None,
            }
        },
        Option::None => Option::None,
    }
}

/// The sample a log line carries, if the line is well formed and carries
/// one.
pub open spec fn extract_sample(line: Seq<u8>) -> Option<SampleV> {
    match parse_record(line) {
        Option::Some(Option::Some(sv)) => Option::Some(sv),
        _ => Option::None,
    }
}


// ---------------------------------------------------------------------------
// Round trip: parsing right after rendering yields the value back
// ---------------------------------------------------------------------------
/// A token fails to match wherever one byte differs.
proof fn lemma_expect_mismatch(s: Seq<u8>, i: int, tok: Seq<u8>, k: int)
    requires
        0 <= k < tok.len(),
        0 <= i,
        i + k < s.len(),
        s[i + k] != tok[k],
    ensures
        expect(s, i, tok) is None,
{
    if expect(s, i, tok) is Some {
        assert(s.subrange(i, i + tok.len() as int)[k] == s[i + k]);
    }
}

/// Every keyword of the format is plain text.
proof fn lemma_tokens_plain()
    ensures
        plain_bytes(tok_online()),
        plain_bytes(tok_offline()),
        plain_bytes(tok_slow()),
        plain_bytes(tok_ok()),
        plain_bytes(tok_google()),
        plain_bytes(tok_example()),
        plain_bytes(tok_ip()),
        plain_bytes(tok_timeout()),
        plain_bytes(tok_dns()),
        plain_bytes(tok_refused()),
        plain_bytes(tok_tls()),
        plain_bytes(tok_invalid()),
{
}

/// A rendered connectivity keyword parses back to its value.
proof fn lemma_parse_connectivity_inv(pre: Seq<u8>, c: Connectivity, rest: Seq<u8>)
    ensures
        parse_connectivity(pre + quoted(conn_token(c)) + rest, pre.len() as int) == Option::Some(
            (c, pre.len() + conn_token(c).len() + 2int),
        ),
{
    lemma_tokens_plain();
    lemma_parse_quoted_concat(pre, conn_token(c), rest);
}

/// A rendered latency label keyword parses back to its value.
proof fn lemma_parse_speed_inv(pre: Seq<u8>, v: LatencySpeed, rest: Seq<u8>)
    ensures
        parse_speed(pre + quoted(speed_token(v)) + rest, pre.len() as int) == Option::Some(
            (v, pre.len() + speed_token(v).len() + 2int),
        ),
{
    lemma_tokens_plain();
    lemma_parse_quoted_concat(pre, speed_token(v), rest);
}

/// A rendered target keyword parses back to its value.
proof fn lemma_parse_target_kw_inv(pre: Seq<u8>, v: CheckTarget, rest: Seq<u8>)
    ensures
        parse_target_kw(pre + quoted(target_token(v)) + rest, pre.len() as int) == Option::Some(
            (v, pre.len() + target_token(v).len() + 2int),
        ),
{
    lemma_tokens_plain();
    lemma_parse_quoted_concat(pre, target_token(v), rest);
}

/// A rendered boolean parses back to its value.
proof fn lemma_parse_bool_inv(pre: Seq<u8>, b: bool, rest: Seq<u8>)
    ensures
        parse_bool(pre + bool_token(b) + rest, pre.len() as int) == Option::Some(
            (b, pre.len() + bool_token(b).len() as int),
        ),
{
    let s = pre + bool_token(b) + rest;
    let i = pre.len() as int;
    if b {
        lemma_expect_concat(pre, tok_true(), rest);
    } else {
        assert(s[i] == 102);
        lemma_expect_mismatch(s, i, tok_true(), 0);
        lemma_expect_concat(pre, tok_false(), rest);
    }
}

/// A rendered optional status code parses back to its value, when a
/// non-digit follows.
proof fn lemma_parse_opt_code_inv(pre: Seq<u8>, c: Option<u16>, rest: Seq<u8>)
    requires
        rest.len() > 0,
        !is_digit_byte(rest[0]),
    ensures
        parse_opt_code(pre + opt_code_json(c) + rest, pre.len() as int) == Option::Some(
            (c, pre.len() + opt_code_json(c).len() as int),
        ),
{
    let s = pre + opt_code_json(c) + rest;
    let i = pre.len() as int;
    match c {
        Option::None => {
            lemma_expect_concat(pre, tok_null(), rest);
        },
        Option::Some(v) => {
            crate::time::lemma_dec_digits_ascii(v as nat);
            assert(s[i] == crate::time::dec_digits(v as nat)[0]);
            lemma_expect_mismatch(s, i, tok_null(), 0);
            lemma_parse_u64_concat(pre, v as u64, rest);
        },
    }
}

/// A rendered classified error parses back to its value.
proof fn lemma_parse_error_inv(pre: Seq<u8>, e: CheckErrorV, rest: Seq<u8>)
    requires
        crate::model::wf_error(e),
    ensures
        parse_error(pre + error_json(e) + rest, pre.len() as int) == Option::Some(
            (e, pre.len() + error_json(e).len() as int),
        ),
{
    lemma_tokens_plain();
    let s = pre + error_json(e) + rest;
    let i = pre.len() as int;
    match e {
        CheckErrorV::Timeout => {
            lemma_parse_quoted_concat(pre, tok_timeout(), rest);
        },
        CheckErrorV::DnsFailure => {
            lemma_parse_quoted_concat(pre, tok_dns(), rest);
        },
        CheckErrorV::ConnectionRefused => {
            lemma_parse_quoted_concat(pre, tok_refused(), rest);
        },
        CheckErrorV::TlsError => {
            lemma_parse_quoted_concat(pre, tok_tls(), rest);
        },
        CheckErrorV::InvalidRequest => {
            lemma_parse_quoted_concat(pre, tok_invalid(), rest);
        },
        CheckErrorV::HttpStatus(v) => {
            let tail = crate::time::dec_digits(v as nat) + seq![125u8] + rest;
            assert(s =~= pre + seg_http() + tail);
            lemma_expect_concat(pre, seg_http(), tail);
            let pre2 = pre + seg_http();
            assert(s =~= pre2 + crate::time::dec_digits(v as nat) + (seq![125u8] + rest));
            lemma_parse_u64_concat(pre2, v as u64, seq![125u8] + rest);
            crate::time::lemma_dec_digits_ascii(v as nat);
            let pre3 = pre2 + crate::time::dec_digits(v as nat);
            assert(s =~= pre3 + seq![125u8] + rest);
            lemma_expect_concat(pre3, seq![125u8], rest);
            assert(s[i] == 123);
        },
        CheckErrorV::Other(m) => {
            let mb = strutil::bytes_of_chars(m);
            lemma_plain_text_bytes(m);
            let tail = quoted(mb) + seq![125u8] + rest;
            assert(s =~= pre + seg_other() + tail);
            lemma_expect_concat(pre, seg_other(), tail);
            let pre2 = pre + seg_other();
            assert(s =~= pre2 + quoted(mb) + (seq![125u8] + rest));
            lemma_parse_quoted_concat(pre2, mb, seq![125u8] + rest);
            let pre3 = pre2 + quoted(mb);
            assert(s =~= pre3 + seq![125u8] + rest);
            lemma_expect_concat(pre3, seq![125u8], rest);
            assert(s[i] == 123);
            assert(s[i + 2] == 111);
            lemma_expect_mismatch(s, i, seg_http(), 2);
        },
    }
}

/// A rendered `null` in error position parses back to no error.
proof fn lemma_parse_opt_error_none(pre: Seq<u8>, rest: Seq<u8>)
    ensures
        parse_opt_error(pre + tok_null() + rest, pre.len() as int) == Option::Some(
            (Option::None::<CheckErrorV>, pre.len() + 4int),
        ),
{
    lemma_expect_concat(pre, tok_null(), rest);
}

/// A rendered error value in error position parses back to that error.
proof fn lemma_parse_opt_error_some(pre: Seq<u8>, v: CheckErrorV, rest: Seq<u8>)
    requires
        crate::model::wf_error(v),
    ensures
        parse_opt_error(pre + error_json(v) + rest, pre.len() as int) == Option::Some(
            (Option::Some(v), pre.len() + error_json(v).len() as int),
        ),
{
    let s = pre + error_json(v) + rest;
    let i = pre.len() as int;
    assert(s[i] == error_json(v)[0]);
    assert(error_json(v)[0] == 34 || error_json(v)[0] == 123);
    lemma_expect_mismatch(s, i, tok_null(), 0);
    lemma_parse_error_inv(pre, v, rest);
}


/// The timestamp rendering is 24 plain bytes.
proof fn lemma_rfc_shape(p: crate::time::DateTimeParts)
    ensures
        crate::time::rfc3339_bytes(p).len() == 24,
        plain_bytes(crate::time::rfc3339_bytes(p)),
{
    crate::time::lemma_pad_digits_ascii(p.year as nat, 4);
    crate::time::lemma_pad_digits_ascii(p.month as nat, 2);
    crate::time::lemma_pad_digits_ascii(p.day as nat, 2);
    crate::time::lemma_pad_digits_ascii(p.hour as nat, 2);
    crate::time::lemma_pad_digits_ascii(p.minute as nat, 2);
    crate::time::lemma_pad_digits_ascii(p.second as nat, 2);
    crate::time::lemma_pad_digits_ascii(p.millisecond as nat, 3);
    let c = crate::time::rfc3339_bytes(p);
    assert forall|i: int| 0 <= i < c.len() implies plain_byte(#[trigger] c[i]) by {
        crate::time::lemma_pad_digits_ascii(p.year as nat, 4);
    }
}

/// Parsing the rendered timestamp of a representable instant yields the
/// instant back.
#[verifier::rlimit(100)]
proof fn lemma_parse_rfc_inv(ms: u64)
    requires
        ms < 253402300800000,
    ensures
        parse_rfc(crate::time::rfc3339_bytes(crate::time::utc_parts(ms as int)))
            == Option::Some(ms),
{
    let p = crate::time::utc_parts(ms as int);
    crate::time::lemma_utc_parts(ms as int);
    let c = crate::time::rfc3339_bytes(p);
    crate::time::lemma_pad_digits_ascii(p.year as nat, 4);
    crate::time::lemma_pad_digits_ascii(p.month as nat, 2);
    crate::time::lemma_pad_digits_ascii(p.day as nat, 2);
    crate::time::lemma_pad_digits_ascii(p.hour as nat, 2);
    crate::time::lemma_pad_digits_ascii(p.minute as nat, 2);
    crate::time::lemma_pad_digits_ascii(p.second as nat, 2);
    crate::time::lemma_pad_digits_ascii(p.millisecond as nat, 3);
    assert(c.subrange(0, 4) =~= crate::time::pad_digits(p.year as nat, 4));
    assert(c.subrange(5, 7) =~= crate::time::pad_digits(p.month as nat, 2));
    assert(c.subrange(8, 10) =~= crate::time::pad_digits(p.day as nat, 2));
    assert(c.subrange(11, 13) =~= crate::time::pad_digits(p.hour as nat, 2));
    assert(c.subrange(14, 16) =~= crate::time::pad_digits(p.minute as nat, 2));
    assert(c.subrange(17, 19) =~= crate::time::pad_digits(p.second as nat, 2));
    assert(c.subrange(20, 23) =~= crate::time::pad_digits(p.millisecond as nat, 3));
    assert(c[4] == 45 && c[7] == 45 && c[10] == 84 && c[13] == 58 && c[16] == 58 && c[19] == 46
        && c[23] == 90);
    assert(pow10(4) == 10000 && pow10(2) == 100 && pow10(3) == 1000) by {
        reveal_with_fuel(pow10, 5);
    }
    crate::time::lemma_pad_digits_value(p.year as nat, 4);
    crate::time::lemma_pad_digits_value(p.month as nat, 2);
    crate::time::lemma_pad_digits_value(p.day as nat, 2);
    crate::time::lemma_pad_digits_value(p.hour as nat, 2);
    crate::time::lemma_pad_digits_value(p.minute as nat, 2);
    crate::time::lemma_pad_digits_value(p.second as nat, 2);
    crate::time::lemma_pad_digits_value(p.millisecond as nat, 3);
}


/// Concatenation of byte sequences is associative.
proof fn seq_assoc(a: Seq<u8>, b: Seq<u8>, c: Seq<u8>)
    ensures
        a + b + c == a + (b + c),
{
    assert(a + b + c =~= a + (b + c));
}

/// A target array rendering is at least as long as the array.
proof fn lemma_targets_json_len(ts: Seq<TargetV>)
    ensures
        targets_json(ts).len() >= ts.len(),
    decreases ts.len(),
{
    if ts.len() > 1 {
        lemma_targets_json_len(ts.drop_first());
    }
}

/// A target object rendering opens with a brace.
proof fn lemma_target_json_first(t: TargetV)
    ensures
        target_json(t).len() > 0,
        target_json(t)[0] == 123,
{
    assert(target_json(t)[0] == seg_target()[0]);
}

/// A non-empty target array rendering opens with a brace.
proof fn lemma_targets_json_first(ts: Seq<TargetV>)
    requires
        ts.len() > 0,
    ensures
        targets_json(ts).len() > 0,
        targets_json(ts)[0] == 123,
{
    lemma_target_json_first(ts[0]);
    if ts.len() > 1 {
        assert(targets_json(ts)[0] == target_json(ts[0])[0]);
    }
}

/// The rendered leading fields of a target parse back to their values.
proof fn lemma_parse_target_meta_inv(pre: Seq<u8>, t: TargetV, rest: Seq<u8>)
    ensures
        parse_target_meta(pre + target_meta_json(t) + rest, pre.len() as int) == Option::Some(
            (t.target, t.success, pre.len() + target_meta_json(t).len() as int),
        ),
{
    let a1 = seg_target();
    let a2 = quoted(target_token(t.target));
    let a3 = seg_success();
    let a4 = bool_token(t.success);
    let p2 = a1 + a2;
    let p3 = p2 + a3;
    let p4 = p3 + a4;
    let t4 = rest;
    let t3 = a4 + t4;
    let t2 = a3 + t3;
    let t1 = a2 + t2;
    let g1 = pre + a1;
    let g2 = g1 + a2;
    let g3 = g2 + a3;
    seq_assoc(pre, a1, a2);
    seq_assoc(pre, p2, a3);
    seq_assoc(pre, p3, a4);
    seq_assoc(g3, a4, t4);
    seq_assoc(g2, a3, t3);
    seq_assoc(g1, a2, t2);
    lemma_expect_concat(pre, a1, t1);
    lemma_parse_target_kw_inv(g1, t.target, t2);
    lemma_expect_concat(g2, a3, t3);
    lemma_parse_bool_inv(g3, t.success, t4);
}

/// The rendered latency fields of a target parse back to their values.
proof fn lemma_parse_target_latency_inv(pre: Seq<u8>, l: Latency, rest: Seq<u8>)
    ensures
        parse_target_latency(pre + target_latency_json(l) + rest, pre.len() as int)
            == Option::Some((l, pre.len() + target_latency_json(l).len() as int)),
{
    let a1 = seg_latency();
    let a2 = crate::time::dec_digits(l.duration as nat);
    let a3 = seg_latency_speed();
    let a4 = quoted(speed_token(l.speed));
    let p2 = a1 + a2;
    let p3 = p2 + a3;
    let p4 = p3 + a4;
    let t4 = rest;
    let t3 = a4 + t4;
    let t2 = a3 + t3;
    let t1 = a2 + t2;
    let g1 = pre + a1;
    let g2 = g1 + a2;
    let g3 = g2 + a3;
    seq_assoc(pre, a1, a2);
    seq_assoc(pre, p2, a3);
    seq_assoc(pre, p3, a4);
    seq_assoc(g3, a4, t4);
    seq_assoc(g2, a3, t3);
    seq_assoc(g1, a2, t2);
    lemma_expect_concat(pre, a1, t1);
    assert(t2[0] == 44);
    lemma_parse_u64_concat(g1, l.duration, t2);
    lemma_expect_concat(g2, a3, t3);
    lemma_parse_speed_inv(g3, l.speed, t4);
}

/// The rendered trailing fields of a target parse back to their values.
#[verifier::rlimit(100)]
proof fn lemma_parse_target_extras_inv(pre: Seq<u8>, t: TargetV, rest: Seq<u8>)
    requires
        crate::model::wf_target(t),
    ensures
        parse_target_extras(pre + target_extras_json(t) + rest, pre.len() as int)
            == Option::Some(
            (t.status_code, t.error, pre.len() + target_extras_json(t).len() as int),
        ),
{
    let a1 = seg_status();
    let a2 = opt_code_json(t.status_code);
    let a3 = seg_error();
    let a4 = opt_error_json(t.error);
    let a5 = seq![125u8];
    let p2 = a1 + a2;
    let p3 = p2 + a3;
    let p4 = p3 + a4;
    let p5 = p4 + a5;
    let t5 = rest;
    let t4 = a5 + t5;
    let t3 = a4 + t4;
    let t2 = a3 + t3;
    let t1 = a2 + t2;
    let g1 = pre + a1;
    let g2 = g1 + a2;
    let g3 = g2 + a3;
    let g4 = g3 + a4;
    seq_assoc(pre, a1, a2);
    seq_assoc(pre, p2, a3);
    seq_assoc(pre, p3, a4);
    seq_assoc(pre, p4, a5);
    seq_assoc(g4, a5, t5);
    seq_assoc(g3, a4, t4);
    seq_assoc(g2, a3, t3);
    seq_assoc(g1, a2, t2);
    lemma_expect_concat(pre, a1, t1);
    assert(t2[0] == 44);
    lemma_parse_opt_code_inv(g1, t.status_code, t2);
    lemma_expect_concat(g2, a3, t3);
    match t.error {
        Option::Some(v) => {
            lemma_parse_opt_error_some(g3, v, t4);
        },
        Option::None => {
            lemma_parse_opt_error_none(g3, t4);
        },
    }
    lemma_expect_concat(g4, a5, t5);
}

/// A rendered target object parses back to its value.
proof fn lemma_parse_target_inv(pre: Seq<u8>, t: TargetV, rest: Seq<u8>)
    requires
        crate::model::wf_target(t),
    ensures
        parse_target(pre + target_json(t) + rest, pre.len() as int) == Option::Some(
            (t, pre.len() + target_json(t).len() as int),
        ),
{
    let a1 = target_meta_json(t);
    let a2 = target_latency_json(t.latency);
    let a3 = target_extras_json(t);
    let p2 = a1 + a2;
    let p3 = p2 + a3;
    let t3 = rest;
    let t2 = a3 + t3;
    let t1 = a2 + t2;
    let g1 = pre + a1;
    let g2 = g1 + a2;
    seq_assoc(pre, a1, a2);
    seq_assoc(pre, p2, a3);
    seq_assoc(g2, a3, t3);
    seq_assoc(g1, a2, t2);
    lemma_parse_target_meta_inv(pre, t, t1);
    lemma_parse_target_latency_inv(g1, t.latency, t2);
    lemma_parse_target_extras_inv(g2, t, t3);
}

/// A rendered non-empty target array, followed by its closing bracket,
/// parses back to the array.
#[verifier::rlimit(100)]
#[verifier::spinoff_prover]
proof fn lemma_parse_targets_rest_inv(pre: Seq<u8>, ts: Seq<TargetV>, rest: Seq<u8>, fuel: nat)
    requires
        ts.len() >= 1,
        fuel >= ts.len(),
        forall|i: int| 0 <= i < ts.len() ==> crate::model::wf_target(#[trigger] ts[i]),
        rest.len() > 0,
        rest[0] == 93,
    ensures
        parse_targets_rest(pre + targets_json(ts) + rest, pre.len() as int, fuel)
            == Option::Some((ts, pre.len() + targets_json(ts).len() + 1int)),
    decreases ts.len(),
{
    let s = pre + targets_json(ts) + rest;
    if ts.len() == 1 {
        lemma_parse_target_inv(pre, ts[0], rest);
        let g = pre + target_json(ts[0]);
        assert(rest =~= seq![93u8] + rest.drop_first());
        seq_assoc(g, seq![93u8], rest.drop_first());
        lemma_expect_concat(g, seq![93u8], rest.drop_first());
        assert(seq![ts[0]] =~= ts);
    } else {
        let tj0 = target_json(ts[0]);
        let tjr = targets_json(ts.drop_first());
        let g1 = pre + tj0;
        let g2 = g1 + seq![44u8];
        let t2 = tjr + rest;
        let t1 = seq![44u8] + t2;
        assert(targets_json(ts) == tj0 + seq![44u8] + tjr);
        seq_assoc(pre, tj0 + seq![44u8], tjr);
        seq_assoc(pre, tj0, seq![44u8]);
        seq_assoc(g2, tjr, rest);
        seq_assoc(g1, seq![44u8], t2);
        lemma_parse_target_inv(pre, ts[0], t1);
        let j = pre.len() + tj0.len() as int;
        assert(parse_target(s, pre.len() as int) == Option::Some((ts[0], j)));
        assert(s[j] == 44);
        lemma_expect_mismatch(s, j, seq![93u8], 0);
        lemma_expect_concat(g1, seq![44u8], t2);
        assert(expect(s, j, seq![44u8]) == Option::Some(j + 1));
        assert forall|i: int| 0 <= i < ts.drop_first().len() implies crate::model::wf_target(
            #[trigger] ts.drop_first()[i],
        ) by {
            assert(ts.drop_first()[i] == ts[i + 1]);
        }
        lemma_parse_targets_rest_inv(g2, ts.drop_first(), rest, (fuel - 1) as nat);
        assert(parse_targets_rest(s, j + 1, (fuel - 1) as nat) == Option::Some(
            (ts.drop_first(), g2.len() + tjr.len() + 1int),
        ));
        assert(seq![ts[0]] + ts.drop_first() =~= ts);
    }
}

/// A rendered quoted timestamp parses back to its instant.
proof fn lemma_parse_sample_head_inv(pre: Seq<u8>, ts: u64, rest: Seq<u8>)
    requires
        ts < 253402300800000,
    ensures
        parse_sample_head(pre + stamp_json(ts) + rest, pre.len() as int) == Option::Some(
            (ts, pre.len() + stamp_json(ts).len() as int),
        ),
{
    let p = crate::time::utc_parts(ts as int);
    let a1 = seg_timestamp();
    let a2 = quoted(crate::time::rfc3339_bytes(p));
    let t2 = rest;
    let t1 = a2 + t2;
    let g1 = pre + a1;
    seq_assoc(pre, a1, a2);
    seq_assoc(g1, a2, t2);
    lemma_expect_concat(pre, a1, t1);
    lemma_rfc_shape(p);
    lemma_parse_quoted_concat(g1, crate::time::rfc3339_bytes(p), t2);
    lemma_parse_rfc_inv(ts);
}

/// Rendered connectivity and speed labels parse back to their values.
proof fn lemma_parse_sample_labels_inv(
    pre: Seq<u8>,
    c: Connectivity,
    sp: LatencySpeed,
    rest: Seq<u8>,
)
    ensures
        parse_sample_labels(pre + sample_labels_json(c, sp) + rest, pre.len() as int)
            == Option::Some((c, sp, pre.len() + sample_labels_json(c, sp).len() as int)),
{
    let a1 = seg_connectivity();
    let a2 = quoted(conn_token(c));
    let a3 = seg_speed();
    let a4 = quoted(speed_token(sp));
    let p2 = a1 + a2;
    let p3 = p2 + a3;
    let p4 = p3 + a4;
    let t4 = rest;
    let t3 = a4 + t4;
    let t2 = a3 + t3;
    let t1 = a2 + t2;
    let g1 = pre + a1;
    let g2 = g1 + a2;
    let g3 = g2 + a3;
    seq_assoc(pre, a1, a2);
    seq_assoc(pre, p2, a3);
    seq_assoc(pre, p3, a4);
    seq_assoc(g3, a4, t4);
    seq_assoc(g2, a3, t3);
    seq_assoc(g1, a2, t2);
    lemma_expect_concat(pre, a1, t1);
    lemma_parse_connectivity_inv(g1, c, t2);
    lemma_expect_concat(g2, a3, t3);
    lemma_parse_speed_inv(g3, sp, t4);
}

/// A rendered target array parses back to its values.
proof fn lemma_parse_sample_results_inv(pre: Seq<u8>, ts: Seq<TargetV>, rest: Seq<u8>)
    requires
        forall|i: int| 0 <= i < ts.len() ==> crate::model::wf_target(#[trigger] ts[i]),
    ensures
        parse_sample_results(pre + sample_results_json(ts) + rest, pre.len() as int)
            == Option::Some((ts, pre.len() + sample_results_json(ts).len() as int)),
{
    let s = pre + sample_results_json(ts) + rest;
    let a1 = seg_results();
    let a2 = targets_json(ts);
    let a3 = seq![93u8];
    let p2 = a1 + a2;
    let p3 = p2 + a3;
    let t3 = rest;
    let t2 = a3 + t3;
    let t1 = a2 + t2;
    let g1 = pre + a1;
    let g2 = g1 + a2;
    seq_assoc(pre, a1, a2);
    seq_assoc(pre, p2, a3);
    seq_assoc(g2, a3, t3);
    seq_assoc(g1, a2, t2);
    lemma_expect_concat(pre, a1, t1);
    if ts.len() == 0 {
        assert(g2 =~= g1);
        lemma_expect_concat(g1, a3, t3);
        assert(Seq::<TargetV>::empty() =~= ts);
    } else {
        lemma_targets_json_first(ts);
        assert(s == g1 + t1);
        assert(s[g1.len() as int] == t1[0]);
        assert(t1[0] == a2[0]);
        lemma_expect_mismatch(s, g1.len() as int, seq![93u8], 0);
        lemma_targets_json_len(ts);
        lemma_parse_targets_rest_inv(g1, ts, t2, s.len() as nat);
    }
}

/// A rendered mean latency field parses back to its value.
proof fn lemma_parse_sample_avg_inv(pre: Seq<u8>, avg: u64, rest: Seq<u8>)
    ensures
        parse_sample_avg(pre + sample_avg_json(avg) + rest, pre.len() as int) == Option::Some(
            (avg, pre.len() + sample_avg_json(avg).len() as int),
        ),
{
    let a1 = seg_avg();
    let a2 = crate::time::dec_digits(avg as nat);
    let a3 = seq![125u8];
    let p2 = a1 + a2;
    let p3 = p2 + a3;
    let t3 = rest;
    let t2 = a3 + t3;
    let t1 = a2 + t2;
    let g1 = pre + a1;
    let g2 = g1 + a2;
    seq_assoc(pre, a1, a2);
    seq_assoc(pre, p2, a3);
    seq_assoc(g2, a3, t3);
    seq_assoc(g1, a2, t2);
    lemma_expect_concat(pre, a1, t1);
    assert(t2[0] == 125);
    lemma_parse_u64_concat(g1, avg, t2);
    lemma_expect_concat(g2, a3, t3);
}

/// A rendered sample object parses back to its value.
proof fn lemma_parse_sample_inv(pre: Seq<u8>, sv: SampleV, rest: Seq<u8>)
    requires
        crate::model::wf_sample(sv),
    ensures
        parse_sample(pre + sample_json(sv) + rest, pre.len() as int) == Option::Some(
            (sv, pre.len() + sample_json(sv).len() as int),
        ),
{
    let a1 = stamp_json(sv.timestamp);
    let a2 = sample_labels_json(sv.connectivity, sv.speed);
    let a3 = sample_results_json(sv.results);
    let a4 = sample_avg_json(sv.avg);
    let p2 = a1 + a2;
    let p3 = p2 + a3;
    let p4 = p3 + a4;
    let t4 = rest;
    let t3 = a4 + t4;
    let t2 = a3 + t3;
    let t1 = a2 + t2;
    let g1 = pre + a1;
    let g2 = g1 + a2;
    let g3 = g2 + a3;
    seq_assoc(pre, a1, a2);
    seq_assoc(pre, p2, a3);
    seq_assoc(pre, p3, a4);
    seq_assoc(g3, a4, t4);
    seq_assoc(g2, a3, t3);
    seq_assoc(g1, a2, t2);
    lemma_parse_sample_head_inv(pre, sv.timestamp, t1);
    lemma_parse_sample_labels_inv(g1, sv.connectivity, sv.speed, t2);
    lemma_parse_sample_results_inv(g2, sv.results, t3);
    lemma_parse_sample_avg_inv(g3, sv.avg, t4);
}

/// A rendered envelope parses back, ending right after its message.
proof fn lemma_parse_record_env_inv(ts: u64, message: Seq<char>, rest: Seq<u8>)
    requires
        ts < crate::model::MAX_TIMESTAMP_MS,
        crate::model::plain_text(message),
    ensures
        parse_record_env(record_env_json(ts, message) + rest) == Option::Some(
            record_env_json(ts, message).len() as int,
        ),
{
    let p = crate::time::utc_parts(ts as int);
    let a1 = stamp_json(ts);
    let a2 = seg_message();
    let a3 = quoted(strutil::bytes_of_chars(message));
    let s = record_env_json(ts, message) + rest;
    let p2 = a1 + a2;
    let p3 = p2 + a3;
    let t3 = rest;
    let t2 = a3 + t3;
    let t1 = a2 + t2;
    let g1 = a1;
    let g2 = g1 + a2;
    seq_assoc(a1, a2, a3);
    seq_assoc(p2, a3, rest);
    seq_assoc(g1, a2, t2);
    assert(s == g1 + t1);
    let b1 = seg_timestamp();
    let b2 = quoted(crate::time::rfc3339_bytes(p));
    seq_assoc(b1, b2, t1);
    assert(Seq::<u8>::empty() + b1 =~= b1);
    lemma_expect_concat(Seq::<u8>::empty(), b1, b2 + t1);
    lemma_rfc_shape(p);
    lemma_parse_quoted_concat(b1, crate::time::rfc3339_bytes(p), t1);
    lemma_expect_concat(g1, a2, t2);
    lemma_plain_text_bytes(message);
    lemma_parse_quoted_concat(g2, strutil::bytes_of_chars(message), t3);
}

/// Serializing a sample into a log line and reading the line back yields
/// the very same sample: the round trip of the log format.
#[verifier::rlimit(100)]
pub proof fn lemma_record_round_trip(ts: u64, message: Seq<char>, sample: SampleV)
    requires
        ts < crate::model::MAX_TIMESTAMP_MS,
        crate::model::plain_text(message),
        crate::model::wf_sample(sample),
    ensures
        extract_sample(record_json(ts, message, Option::Some(sample))) == Option::Some(sample),
{
    let env = record_env_json(ts, message);
    let c5 = seg_result();
    let c6 = sample_json(sample);
    let c7 = seq![125u8];
    let s = record_json(ts, message, Option::Some(sample));
    let t6 = c7;
    let t5 = c6 + t6;
    let t4 = c5 + t5;
    let g5 = env + c5;
    let g6 = g5 + c6;
    seq_assoc(c5, c6, c7);
    lemma_parse_record_env_inv(ts, message, t4);
    assert(s[env.len() as int] == t4[0]);
    lemma_expect_mismatch(s, env.len() as int, seq![125u8], 0);
    seq_assoc(env, c5, t5);
    lemma_expect_concat(env, c5, t5);
    seq_assoc(g5, c6, t6);
    lemma_parse_sample_inv(g5, sample, t6);
    assert(g6 + c7 + Seq::<u8>::empty() =~= g6 + c7);
    lemma_expect_concat(g6, c7, Seq::<u8>::empty());
    assert(g6.len() + 1 == s.len());
}

/// A well formed line that carries no sample reads back as exactly that:
/// the reader skips it without error.
pub proof fn lemma_message_line_no_sample(ts: u64, message: Seq<char>)
    requires
        ts < crate::model::MAX_TIMESTAMP_MS,
        crate::model::plain_text(message),
    ensures
        parse_record(record_json(ts, message, Option::None)) == Option::Some(
            Option::None::<SampleV>,
        ),
{
    let env = record_env_json(ts, message);
    let c7 = seq![125u8];
    let s = record_json(ts, message, Option::None);
    lemma_parse_record_env_inv(ts, message, c7);
    assert(env + c7 + Seq::<u8>::empty() =~= env + c7);
    lemma_expect_concat(env, c7, Seq::<u8>::empty());
    assert(env.len() + 1 == s.len());
}


// ---------------------------------------------------------------------------
// Tokens and segments as runtime byte arrays
// ---------------------------------------------------------------------------

/// `{"timestamp":` as bytes.
fn lit_seg_timestamp() -> (r: [u8; 13])
    ensures
        r@ == seg_timestamp(),
{
    let r: [u8; 13] = [123, 34, 116, 105, 109, 101, 115, 116, 97, 109, 112, 34, 58];
    proof {
        assert(r@ =~= seg_timestamp());
    }
    r
}

/// `,"message":` as bytes.
fn lit_seg_message() -> (r: [u8; 11])
    ensures
        r@ == seg_message(),
{
    let r: [u8; 11] = [44, 34, 109, 101, 115, 115, 97, 103, 101, 34, 58];
    proof {
        assert(r@ =~= seg_message());
    }
    r
}

/// `,"result":` as bytes.
fn lit_seg_result() -> (r: [u8; 10])
    ensures
        r@ == seg_result(),
{
    let r: [u8; 10] = [44, 34, 114, 101, 115, 117, 108, 116, 34, 58];
    proof {
        assert(r@ =~= seg_result());
    }
    r
}

/// `,"connectivity":` as bytes.
fn lit_seg_connectivity() -> (r: [u8; 16])
    ensures
        r@ == seg_connectivity(),
{
    let r: [u8; 16] = [44, 34, 99, 111, 110, 110, 101, 99, 116, 105, 118, 105, 116, 121, 34, 58];
    proof {
        assert(r@ =~= seg_connectivity());
    }
    r
}

/// `,"speed":` as bytes.
fn lit_seg_speed() -> (r: [u8; 9])
    ensures
        r@ == seg_speed(),
{
    let r: [u8; 9] = [44, 34, 115, 112, 101, 101, 100, 34, 58];
    proof {
        assert(r@ =~= seg_speed());
    }
    r
}

/// `,"results":[` as bytes.
fn lit_seg_results() -> (r: [u8; 12])
    ensures
        r@ == seg_results(),
{
    let r: [u8; 12] = [44, 34, 114, 101, 115, 117, 108, 116, 115, 34, 58, 91];
    proof {
        assert(r@ =~= seg_results());
    }
    r
}

/// `,"avg_ms":` as bytes.
fn lit_seg_avg() -> (r: [u8; 10])
    ensures
        r@ == seg_avg(),
{
    let r: [u8; 10] = [44, 34, 97, 118, 103, 95, 109, 115, 34, 58];
    proof {
        assert(r@ =~= seg_avg());
    }
    r
}

/// `{"target":` as bytes.
fn lit_seg_target() -> (r: [u8; 10])
    ensures
        r@ == seg_target(),
{
    let r: [u8; 10] = [123, 34, 116, 97, 114, 103, 101, 116, 34, 58];
    proof {
        assert(r@ =~= seg_target());
    }
    r
}

/// `,"success":` as bytes.
fn lit_seg_success() -> (r: [u8; 11])
    ensures
        r@ == seg_success(),
{
    let r: [u8; 11] = [44, 34, 115, 117, 99, 99, 101, 115, 115, 34, 58];
    proof {
        assert(r@ =~= seg_success());
    }
    r
}

/// `,"latency_ms":` as bytes.
fn lit_seg_latency() -> (r: [u8; 14])
    ensures
        r@ == seg_latency(),
{
    let r: [u8; 14] = [44, 34, 108, 97, 116, 101, 110, 99, 121, 95, 109, 115, 34, 58];
    proof {
        assert(r@ =~= seg_latency());
    }
    r
}

/// `,"latency_speed":` as bytes.
fn lit_seg_latency_speed() -> (r: [u8; 17])
    ensures
        r@ == seg_latency_speed(),
{
    let r: [u8; 17] = [44, 34, 108, 97, 116, 101, 110, 99, 121, 95, 115, 112, 101, 101, 100, 34, 58];
    proof {
        assert(r@ =~= seg_latency_speed());
    }
    r
}

/// `,"status_code":` as bytes.
fn lit_seg_status() -> (r: [u8; 15])
    ensures
        r@ == seg_status(),
{
    let r: [u8; 15] = [44, 34, 115, 116, 97, 116, 117, 115, 95, 99, 111, 100, 101, 34, 58];
    proof {
        assert(r@ =~= seg_status());
    }
    r
}

/// `,"error":` as bytes.
fn lit_seg_error() -> (r: [u8; 9])
    ensures
        r@ == seg_error(),
{
    let r: [u8; 9] = [44, 34, 101, 114, 114, 111, 114, 34, 58];
    proof {
        assert(r@ =~= seg_error());
    }
    r
}

/// `{"http_status":` as bytes.
fn lit_seg_http() -> (r: [u8; 15])
    ensures
        r@ == seg_http(),
{
    let r: [u8; 15] = [123, 34, 104, 116, 116, 112, 95, 115, 116, 97, 116, 117, 115, 34, 58];
    proof {
        assert(r@ =~= seg_http());
    }
    r
}

/// `{"other":` as bytes.
fn lit_seg_other() -> (r: [u8; 9])
    ensures
        r@ == seg_other(),
{
    let r: [u8; 9] = [123, 34, 111, 116, 104, 101, 114, 34, 58];
    proof {
        assert(r@ =~= seg_other());
    }
    r
}

/// `Online` as bytes.
fn lit_tok_online() -> (r: [u8; 6])
    ensures
        r@ == tok_online(),
{
    let r: [u8; 6] = [79, 110, 108, 105, 110, 101];
    proof {
        assert(r@ =~= tok_online());
    }
    r
}

/// `Offline` as bytes.
fn lit_tok_offline() -> (r: [u8; 7])
    ensures
        r@ == tok_offline(),
{
    let r: [u8; 7] = [79, 102, 102, 108, 105, 110, 101];
    proof {
        assert(r@ =~= tok_offline());
    }
    r
}

/// `Slow` as bytes.
fn lit_tok_slow() -> (r: [u8; 4])
    ensures
        r@ == tok_slow(),
{
    let r: [u8; 4] = [83, 108, 111, 119];
    proof {
        assert(r@ =~= tok_slow());
    }
    r
}

/// `Ok` as bytes.
fn lit_tok_ok() -> (r: [u8; 2])
    ensures
        r@ == tok_ok(),
{
    let r: [u8; 2] = [79, 107];
    proof {
        assert(r@ =~= tok_ok());
    }
    r
}

/// `Google` as bytes.
fn lit_tok_google() -> (r: [u8; 6])
    ensures
        r@ == tok_google(),
{
    let r: [u8; 6] = [71, 111, 111, 103, 108, 101];
    proof {
        assert(r@ =~= tok_google());
    }
    r
}

/// `Example` as bytes.
fn lit_tok_example() -> (r: [u8; 7])
    ensures
        r@ == tok_example(),
{
    let r: [u8; 7] = [69, 120, 97, 109, 112, 108, 101];
    proof {
        assert(r@ =~= tok_example());
    }
    r
}

/// `IP` as bytes.
fn lit_tok_ip() -> (r: [u8; 2])
    ensures
        r@ == tok_ip(),
{
    let r: [u8; 2] = [73, 80];
    proof {
        assert(r@ =~= tok_ip());
    }
    r
}

/// `true` as bytes.
fn lit_tok_true() -> (r: [u8; 4])
    ensures
        r@ == tok_true(),
{
    let r: [u8; 4] = [116, 114, 117, 101];
    proof {
        assert(r@ =~= tok_true());
    }
    r
}

/// `false` as bytes.
fn lit_tok_false() -> (r: [u8; 5])
    ensures
        r@ == tok_false(),
{
    let r: [u8; 5] = [102, 97, 108, 115, 101];
    proof {
        assert(r@ =~= tok_false());
    }
    r
}

/// `null` as bytes.
fn lit_tok_null() -> (r: [u8; 4])
    ensures
        r@ == tok_null(),
{
    let r: [u8; 4] = [110, 117, 108, 108];
    proof {
        assert(r@ =~= tok_null());
    }
    r
}

/// `Timeout` as bytes.
fn lit_tok_timeout() -> (r: [u8; 7])
    ensures
        r@ == tok_timeout(),
{
    let r: [u8; 7] = [84, 105, 109, 101, 111, 117, 116];
    proof {
        assert(r@ =~= tok_timeout());
    }
    r
}

/// `DnsFailure` as bytes.
fn lit_tok_dns() -> (r: [u8; 10])
    ensures
        r@ == tok_dns(),
{
    let r: [u8; 10] = [68, 110, 115, 70, 97, 105, 108, 117, 114, 101];
    proof {
        assert(r@ =~= tok_dns());
    }
    r
}

/// `ConnectionRefused` as bytes.
fn lit_tok_refused() -> (r: [u8; 17])
    ensures
        r@ == tok_refused(),
{
    let r: [u8; 17] = [67, 111, 110, 110, 101, 99, 116, 105, 111, 110, 82, 101, 102, 117, 115, 101, 100];
    proof {
        assert(r@ =~= tok_refused());
    }
    r
}

/// `TlsError` as bytes.
fn lit_tok_tls() -> (r: [u8; 8])
    ensures
        r@ == tok_tls(),
{
    let r: [u8; 8] = [84, 108, 115, 69, 114, 114, 111, 114];
    proof {
        assert(r@ =~= tok_tls());
    }
    r
}

/// `InvalidRequest` as bytes.
fn lit_tok_invalid() -> (r: [u8; 14])
    ensures
        r@ == tok_invalid(),
{
    let r: [u8; 14] = [73, 110, 118, 97, 108, 105, 100, 82, 101, 113, 117, 101, 115, 116];
    proof {
        assert(r@ =~= tok_invalid());
    }
    r
}

// ---------------------------------------------------------------------------
// Rendering (executable)
// ---------------------------------------------------------------------------
/// Appends a quoted connectivity keyword.
fn push_conn(out: &mut Vec<u8>, c: Connectivity)
    ensures
        final(out)@ == old(out)@ + quoted(conn_token(c)),
{
    out.push(34);
    match c {
        Connectivity::Online => {
            let lit = lit_tok_online();
            strutil::push_bytes(out, lit.as_slice());
        },
        Connectivity::Offline => {
            let lit = lit_tok_offline();
            strutil::push_bytes(out, lit.as_slice());
        },
    }
    out.push(34);
    proof {
        assert(final(out)@ =~= old(out)@ + quoted(conn_token(c)));
    }
}

/// Appends a quoted latency label keyword.
fn push_speed(out: &mut Vec<u8>, sp: LatencySpeed)
    ensures
        final(out)@ == old(out)@ + quoted(speed_token(sp)),
{
    out.push(34);
    match sp {
        LatencySpeed::Slow => {
            let lit = lit_tok_slow();
            strutil::push_bytes(out, lit.as_slice());
        },
        LatencySpeed::Okay => {
            let lit = lit_tok_ok();
            strutil::push_bytes(out, lit.as_slice());
        },
    }
    out.push(34);
    proof {
        assert(final(out)@ =~= old(out)@ + quoted(speed_token(sp)));
    }
}

/// Appends a quoted target keyword.
fn push_target_kw(out: &mut Vec<u8>, t: CheckTarget)
    ensures
        final(out)@ == old(out)@ + quoted(target_token(t)),
{
    out.push(34);
    match t {
        CheckTarget::Google => {
            let lit = lit_tok_google();
            strutil::push_bytes(out, lit.as_slice());
        },
        CheckTarget::Example => {
            let lit = lit_tok_example();
            strutil::push_bytes(out, lit.as_slice());
        },
        CheckTarget::IP => {
            let lit = lit_tok_ip();
            strutil::push_bytes(out, lit.as_slice());
        },
    }
    out.push(34);
    proof {
        assert(final(out)@ =~= old(out)@ + quoted(target_token(t)));
    }
}

/// Appends a bare boolean keyword.
fn push_bool(out: &mut Vec<u8>, b: bool)
    ensures
        final(out)@ == old(out)@ + bool_token(b),
{
    if b {
        let lit = lit_tok_true();
        strutil::push_bytes(out, lit.as_slice());
    } else {
        let lit = lit_tok_false();
        strutil::push_bytes(out, lit.as_slice());
    }
}

/// Appends the bytes of a plain string field.
fn push_plain_str(out: &mut Vec<u8>, m: &str)
    requires
        crate::model::plain_text(m@),
    ensures
        final(out)@ == old(out)@ + strutil::bytes_of_chars(m@),
{
    proof {
        assert(vstd::string::is_ascii(m)) by {
            assert forall|i: int| 0 <= i < m@.len() implies (m@[i] as u32) < 128 by {
                assert(plain_char(m@[i]));
            }
        }
        vstd::string::is_ascii_spec_bytes(m);
    }
    strutil::push_bytes(out, m.as_bytes());
    proof {
        assert(final(out)@ =~= old(out)@ + strutil::bytes_of_chars(m@));
    }
}

/// Appends a classified error value.
fn push_error(out: &mut Vec<u8>, e: &CheckError)
    requires
        e.wf(),
    ensures
        final(out)@ == old(out)@ + error_json(e@),
{
    match e {
        CheckError::Timeout => {
            out.push(34);
            let lit = lit_tok_timeout();
            strutil::push_bytes(out, lit.as_slice());
            out.push(34);
            proof {
                assert(final(out)@ =~= old(out)@ + error_json(e@));
            }
        },
        CheckError::DnsFailure => {
            out.push(34);
            let lit = lit_tok_dns();
            strutil::push_bytes(out, lit.as_slice());
            out.push(34);
            proof {
                assert(final(out)@ =~= old(out)@ + error_json(e@));
            }
        },
        CheckError::ConnectionRefused => {
            out.push(34);
            let lit = lit_tok_refused();
            strutil::push_bytes(out, lit.as_slice());
            out.push(34);
            proof {
                assert(final(out)@ =~= old(out)@ + error_json(e@));
            }
        },
        CheckError::TlsError => {
            out.push(34);
            let lit = lit_tok_tls();
            strutil::push_bytes(out, lit.as_slice());
            out.push(34);
            proof {
                assert(final(out)@ =~= old(out)@ + error_json(e@));
            }
        },
        CheckError::InvalidRequest => {
            out.push(34);
            let lit = lit_tok_invalid();
            strutil::push_bytes(out, lit.as_slice());
            out.push(34);
            proof {
                assert(final(out)@ =~= old(out)@ + error_json(e@));
            }
        },
        CheckError::HttpStatus(c) => {
            let lit = lit_seg_http();
            strutil::push_bytes(out, lit.as_slice());
            crate::time::push_u64_digits(out, *c as u64);
            out.push(125);
            proof {
                assert(final(out)@ =~= old(out)@ + error_json(e@));
            }
        },
        CheckError::Other(m) => {
            let lit = lit_seg_other();
            strutil::push_bytes(out, lit.as_slice());
            out.push(34);
            push_plain_str(out, m.as_str());
            out.push(34);
            out.push(125);
            proof {
                assert(final(out)@ =~= old(out)@ + error_json(e@));
            }
        },
    }
}

/// Appends one target object.
fn push_target_res(out: &mut Vec<u8>, t: &TargetResult)
    requires
        t.wf(),
    ensures
        final(out)@ == old(out)@ + target_json(t@),
{
    let ghost o0 = out@;
    let lit_t = lit_seg_target();
    strutil::push_bytes(out, lit_t.as_slice());
    push_target_kw(out, t.target);
    let lit_s = lit_seg_success();
    strutil::push_bytes(out, lit_s.as_slice());
    push_bool(out, t.success);
    proof {
        assert(out@ =~= o0 + target_meta_json(t@));
    }
    let ghost o1 = out@;
    let lit_l = lit_seg_latency();
    strutil::push_bytes(out, lit_l.as_slice());
    crate::time::push_u64_digits(out, t.latency.duration);
    let lit_ls = lit_seg_latency_speed();
    strutil::push_bytes(out, lit_ls.as_slice());
    push_speed(out, t.latency.speed);
    proof {
        assert(out@ =~= o1 + target_latency_json(t@.latency));
    }
    let ghost o2 = out@;
    let lit_st = lit_seg_status();
    strutil::push_bytes(out, lit_st.as_slice());
    match &t.status_code {
        Option::Some(c) => {
            crate::time::push_u64_digits(out, *c as u64);
        },
        Option::None => {
            let lit = lit_tok_null();
            strutil::push_bytes(out, lit.as_slice());
        },
    }
    let lit_e = lit_seg_error();
    strutil::push_bytes(out, lit_e.as_slice());
    match &t.error {
        Option::Some(e) => {
            push_error(out, e);
        },
        Option::None => {
            let lit = lit_tok_null();
            strutil::push_bytes(out, lit.as_slice());
        },
    }
    out.push(125);
    proof {
        assert(out@ =~= o2 + target_extras_json(t@));
        assert(final(out)@ =~= old(out)@ + target_json(t@));
    }
}

/// Appends the target objects from index `from` on, comma separated.
fn push_targets(out: &mut Vec<u8>, ts: &Vec<TargetResult>, from: usize)
    requires
        from <= ts@.len(),
        forall|i: int| 0 <= i < ts@.len() ==> (#[trigger] ts@[i]).wf(),
    ensures
        final(out)@ == old(out)@ + targets_json(
            ts@.map_values(|t: TargetResult| t@).subrange(from as int, ts@.len() as int),
        ),
    decreases ts@.len() - from,
{
    let ghost views = ts@.map_values(|t: TargetResult| t@);
    let ghost sub = views.subrange(from as int, ts@.len() as int);
    if from < ts.len() {
        proof {
            assert(sub[0] == views[from as int]);
            assert(views[from as int] == ts@[from as int]@);
        }
        push_target_res(out, &ts[from]);
        if from + 1 < ts.len() {
            out.push(44);
            push_targets(out, ts, from + 1);
            proof {
                assert(sub.drop_first() =~= views.subrange(from + 1, ts@.len() as int));
                assert(final(out)@ =~= old(out)@ + targets_json(sub));
            }
        } else {
            proof {
                assert(sub.len() == 1);
                assert(final(out)@ =~= old(out)@ + targets_json(sub));
            }
        }
    } else {
        proof {
            assert(final(out)@ =~= old(out)@ + targets_json(sub));
        }
    }
}

/// Appends the quoted timestamp that opens a sample object or log line.
fn push_stamp(out: &mut Vec<u8>, ts: u64)
    requires
        ts < crate::model::MAX_TIMESTAMP_MS,
    ensures
        final(out)@ == old(out)@ + stamp_json(ts),
{
    let lit = lit_seg_timestamp();
    strutil::push_bytes(out, lit.as_slice());
    out.push(34);
    let p = crate::time::utc_date_time(ts);
    crate::time::push_rfc3339(out, &p);
    out.push(34);
    proof {
        assert(final(out)@ =~= old(out)@ + stamp_json(ts));
    }
}

/// Appends one whole sample object.
fn push_sample(out: &mut Vec<u8>, s: &InternetCheckResult)
    requires
        s.wf(),
    ensures
        final(out)@ == old(out)@ + sample_json(s@),
{
    proof {
        assert forall|i: int| 0 <= i < s.results@.len() implies (
        #[trigger] s.results@[i]).wf() by {
            assert(s@.results[i] == s.results@[i]@);
            assert(crate::model::wf_target(s@.results[i]));
        }
    }
    let ghost o0 = out@;
    push_stamp(out, s.timestamp);
    let ghost o1 = out@;
    let lit_c = lit_seg_connectivity();
    strutil::push_bytes(out, lit_c.as_slice());
    push_conn(out, s.connectivity);
    let lit_sp = lit_seg_speed();
    strutil::push_bytes(out, lit_sp.as_slice());
    push_speed(out, s.speed);
    proof {
        assert(out@ =~= o1 + sample_labels_json(s@.connectivity, s@.speed));
    }
    let ghost o2 = out@;
    let lit_r = lit_seg_results();
    strutil::push_bytes(out, lit_r.as_slice());
    push_targets(out, &s.results, 0);
    out.push(93);
    proof {
        assert(s.results@.map_values(|t: TargetResult| t@).subrange(
            0,
            s.results@.len() as int,
        ) =~= s@.results);
        assert(out@ =~= o2 + sample_results_json(s@.results));
    }
    let ghost o3 = out@;
    let lit_a = lit_seg_avg();
    strutil::push_bytes(out, lit_a.as_slice());
    crate::time::push_u64_digits(out, s.avg);
    out.push(125);
    proof {
        assert(out@ =~= o3 + sample_avg_json(s@.avg));
        assert(final(out)@ =~= old(out)@ + sample_json(s@));
    }
}

/// Appends the envelope of a log line: its timestamp and the sanitized
/// message.
fn push_env(out: &mut Vec<u8>, timestamp_ms: u64, message: &str)
    requires
        timestamp_ms < crate::model::MAX_TIMESTAMP_MS,
    ensures
        final(out)@ == old(out)@ + record_env_json(
            timestamp_ms,
            crate::model::sanitize_text(message@),
        ),
{
    push_stamp(out, timestamp_ms);
    let lit_m = lit_seg_message();
    strutil::push_bytes(out, lit_m.as_slice());
    out.push(34);
    let clean = crate::model::sanitize_message(message);
    push_plain_str(out, clean.as_str());
    out.push(34);
    proof {
        assert(final(out)@ =~= old(out)@ + record_env_json(
            timestamp_ms,
            crate::model::sanitize_text(message@),
        ));
    }
}

/// Serializes a plain message into one log line (without the trailing
/// newline). Characters the format cannot carry are replaced first.
pub fn record_line(timestamp_ms: u64, message: &str) -> (r: Vec<u8>)
    requires
        timestamp_ms < crate::model::MAX_TIMESTAMP_MS,
    ensures
        r@ == record_json(timestamp_ms, crate::model::sanitize_text(message@), Option::None),
{
    let mut out: Vec<u8> = Vec::new();
    push_env(&mut out, timestamp_ms, message);
    out.push(125);
    proof {
        assert(out@ =~= record_json(
            timestamp_ms,
            crate::model::sanitize_text(message@),
            Option::None,
        ));
    }
    out
}

/// Serializes a message and a sample into one log line (without the
/// trailing newline): the form the monitor writes and the reader
/// reconstructs samples from.
pub fn sample_line(timestamp_ms: u64, message: &str, sample: &InternetCheckResult) -> (r: Vec<
    u8,
>)
    requires
        timestamp_ms < crate::model::MAX_TIMESTAMP_MS,
        sample.wf(),
    ensures
        r@ == record_json(
            timestamp_ms,
            crate::model::sanitize_text(message@),
            Option::Some(sample@),
        ),
{
    let mut out: Vec<u8> = Vec::new();
    push_env(&mut out, timestamp_ms, message);
    let lit_r = lit_seg_result();
    strutil::push_bytes(&mut out, lit_r.as_slice());
    push_sample(&mut out, sample);
    out.push(125);
    proof {
        assert(out@ =~= record_json(
            timestamp_ms,
            crate::model::sanitize_text(message@),
            Option::Some(sample@),
        ));
    }
    out
}


// ---------------------------------------------------------------------------
// Parsing (executable)
// ---------------------------------------------------------------------------
/// The content of a parsed quoted string is plain.
proof fn lemma_scan_plain_range(s: Seq<u8>, i: int)
    requires
        0 <= i <= s.len(),
    ensures
        i <= scan_plain_end(s, i) <= s.len(),
        forall|k: int| i <= k < scan_plain_end(s, i) ==> plain_byte(#[trigger] s[k]),
    decreases s.len() - i,
{
    if i < s.len() && plain_byte(s[i]) {
        lemma_scan_plain_range(s, i + 1);
    }
}

/// The content a quoted-string parse yields is plain.
proof fn lemma_parse_quoted_plain(s: Seq<u8>, i: int)
    requires
        parse_quoted(s, i) is Some,
    ensures
        plain_bytes((parse_quoted(s, i)->0).0),
{
    lemma_scan_plain_range(s, i + 1);
}

/// Reads exactly two decimal digits.
fn read2(c: &[u8], i: usize) -> (r: Option<u64>)
    requires
        i + 2 <= c@.len(),
    ensures
        r is Some <==> all_digits(c@, i as int, i + 2),
        r is Some ==> r->0 == digits_value(c@.subrange(i as int, i + 2)) && r->0 < 100,
{
    let n: usize = c.len();
    let b0 = c[i];
    let b1 = c[i + 1];
    if 48 <= b0 && b0 <= 57 && 48 <= b1 && b1 <= 57 {
        proof {
            assert(c@.subrange(i as int, i + 2).drop_last() =~= c@.subrange(i as int, i + 1));
            assert(c@.subrange(i as int, i + 1).drop_last() =~= Seq::<u8>::empty());
            assert(digits_value(Seq::<u8>::empty()) == 0);
            assert(digits_value(c@.subrange(i as int, i + 1)) == (b0 - 48) as nat);
            assert(digits_value(c@.subrange(i as int, i + 2)) == ((b0 - 48) as nat) * 10 + (b1
                - 48) as nat);
        }
        Option::Some(((b0 - 48) as u64) * 10 + ((b1 - 48) as u64))
    } else {
        proof {
            if all_digits(c@, i as int, i + 2) {
                assert(is_digit_byte(c@[i as int]) && is_digit_byte(c@[i + 1]));
            }
        }
        Option::None
    }
}

/// Reads exactly three decimal digits.
fn read3(c: &[u8], i: usize) -> (r: Option<u64>)
    requires
        i + 3 <= c@.len(),
    ensures
        r is Some <==> all_digits(c@, i as int, i + 3),
        r is Some ==> r->0 == digits_value(c@.subrange(i as int, i + 3)) && r->0 < 1000,
{
    let n: usize = c.len();
    let b2 = c[i + 2];
    match read2(c, i) {
        Option::Some(hi) => {
            if 48 <= b2 && b2 <= 57 {
                proof {
                    assert(c@.subrange(i as int, i + 3).drop_last() =~= c@.subrange(
                        i as int,
                        i + 2,
                    ));
                    assert(digits_value(c@.subrange(i as int, i + 3)) == digits_value(
                        c@.subrange(i as int, i + 2),
                    ) * 10 + (b2 - 48) as nat);
                }
                Option::Some(hi * 10 + ((b2 - 48) as u64))
            } else {
                proof {
                    if all_digits(c@, i as int, i + 3) {
                        assert(is_digit_byte(c@[i + 2]));
                    }
                }
                Option::None
            }
        },
        Option::None => {
            proof {
                if all_digits(c@, i as int, i + 3) {
                    assert(all_digits(c@, i as int, i + 2));
                }
            }
            Option::None
        },
    }
}

/// Reads exactly four decimal digits.
fn read4(c: &[u8], i: usize) -> (r: Option<u64>)
    requires
        i + 4 <= c@.len(),
    ensures
        r is Some <==> all_digits(c@, i as int, i + 4),
        r is Some ==> r->0 == digits_value(c@.subrange(i as int, i + 4)) && r->0 < 10000,
{
    let n: usize = c.len();
    let b3 = c[i + 3];
    match read3(c, i) {
        Option::Some(hi) => {
            if 48 <= b3 && b3 <= 57 {
                proof {
                    assert(c@.subrange(i as int, i + 4).drop_last() =~= c@.subrange(
                        i as int,
                        i + 3,
                    ));
                    assert(digits_value(c@.subrange(i as int, i + 4)) == digits_value(
                        c@.subrange(i as int, i + 3),
                    ) * 10 + (b3 - 48) as nat);
                }
                Option::Some(hi * 10 + ((b3 - 48) as u64))
            } else {
                proof {
                    if all_digits(c@, i as int, i + 4) {
                        assert(is_digit_byte(c@[i + 3]));
                    }
                }
                Option::None
            }
        },
        Option::None => {
            proof {
                if all_digits(c@, i as int, i + 4) {
                    assert(all_digits(c@, i as int, i + 3));
                }
            }
            Option::None
        },
    }
}

/// Reads the timestamp inside its quotes.
fn parse_rfc_x(c: &[u8]) -> (r: Option<u64>)
    ensures
        r == parse_rfc(c@),
        r is Some ==> r->0 < 253402300800000,
{
    if c.len() != 24 {
        return Option::None;
    }
    if !(c[4] == 45 && c[7] == 45 && c[10] == 84 && c[13] == 58 && c[16] == 58 && c[19] == 46
        && c[23] == 90) {
        return Option::None;
    }
    let y = match read4(c, 0) {
        Option::Some(v) => v,
        Option::None => {
            return Option::None;
        },
    };
    let mo = match read2(c, 5) {
        Option::Some(v) => v,
        Option::None => {
            return Option::None;
        },
    };
    let d = match read2(c, 8) {
        Option::Some(v) => v,
        Option::None => {
            return Option::None;
        },
    };
    let h = match read2(c, 11) {
        Option::Some(v) => v,
        Option::None => {
            return Option::None;
        },
    };
    let mi = match read2(c, 14) {
        Option::Some(v) => v,
        Option::None => {
            return Option::None;
        },
    };
    let sec = match read2(c, 17) {
        Option::Some(v) => v,
        Option::None => {
            return Option::None;
        },
    };
    let ms3 = match read3(c, 20) {
        Option::Some(v) => v,
        Option::None => {
            return Option::None;
        },
    };
    if !(1970 <= y) {
        return Option::None;
    }
    if !(1 <= mo && mo <= 12) {
        return Option::None;
    }
    if !(1 <= d && d <= crate::time::days_in_month_x(y, mo)) {
        return Option::None;
    }
    if !(h < 24 && mi < 60 && sec < 60) {
        return Option::None;
    }
    let days = crate::time::days_from_civil_x(y, mo, d);
    Option::Some((days * 86400 + h * 3600 + mi * 60 + sec) * 1000 + ms3)
}

/// Reads a quoted keyword and maps it to a connectivity value.
fn parse_connectivity_x(s: &[u8], i: usize) -> (r: Option<(Connectivity, usize)>)
    requires
        i <= s@.len(),
    ensures
        (match r {
            Option::Some((v, j)) => Option::Some((v, j as int)),
            Option::None => Option::None,
        }) == parse_connectivity(s@, i as int),
        r is Some ==> i <= (r->0).1 <= s@.len(),
{
    match parse_quoted_x(s, i) {
        Option::Some((content, j)) => {
            let lit_on = lit_tok_online();
            let lit_off = lit_tok_offline();
            if strutil::bytes_eq(content.as_slice(), lit_on.as_slice()) {
                Option::Some((Connectivity::Online, j))
            } else if strutil::bytes_eq(content.as_slice(), lit_off.as_slice()) {
                Option::Some((Connectivity::Offline, j))
            } else {
                Option::None
            }
        },
        Option::None => Option::None,
    }
}

/// Reads a quoted keyword and maps it to a latency label.
fn parse_speed_x(s: &[u8], i: usize) -> (r: Option<(LatencySpeed, usize)>)
    requires
        i <= s@.len(),
    ensures
        (match r {
            Option::Some((v, j)) => Option::Some((v, j as int)),
            Option::None => Option::None,
        }) == parse_speed(s@, i as int),
        r is Some ==> i <= (r->0).1 <= s@.len(),
{
    match parse_quoted_x(s, i) {
        Option::Some((content, j)) => {
            let lit_slow = lit_tok_slow();
            let lit_ok = lit_tok_ok();
            if strutil::bytes_eq(content.as_slice(), lit_slow.as_slice()) {
                Option::Some((LatencySpeed::Slow, j))
            } else if strutil::bytes_eq(content.as_slice(), lit_ok.as_slice()) {
                Option::Some((LatencySpeed::Okay, j))
            } else {
                Option::None
            }
        },
        Option::None => Option::None,
    }
}

/// Reads a quoted keyword and maps it to a probe target.
fn parse_target_kw_x(s: &[u8], i: usize) -> (r: Option<(CheckTarget, usize)>)
    requires
        i <= s@.len(),
    ensures
        (match r {
            Option::Some((v, j)) => Option::Some((v, j as int)),
            Option::None => Option::None,
        }) == parse_target_kw(s@, i as int),
        r is Some ==> i <= (r->0).1 <= s@.len(),
{
    match parse_quoted_x(s, i) {
        Option::Some((content, j)) => {
            let lit_g = lit_tok_google();
            let lit_e = lit_tok_example();
            let lit_i = lit_tok_ip();
            if strutil::bytes_eq(content.as_slice(), lit_g.as_slice()) {
                Option::Some((CheckTarget::Google, j))
            } else if strutil::bytes_eq(content.as_slice(), lit_e.as_slice()) {
                Option::Some((CheckTarget::Example, j))
            } else if strutil::bytes_eq(content.as_slice(), lit_i.as_slice()) {
                Option::Some((CheckTarget::IP, j))
            } else {
                Option::None
            }
        },
        Option::None => Option::None,
    }
}

/// Reads a bare boolean keyword.
fn parse_bool_x(s: &[u8], i: usize) -> (r: Option<(bool, usize)>)
    requires
        i <= s@.len(),
    ensures
        (match r {
            Option::Some((v, j)) => Option::Some((v, j as int)),
            Option::None => Option::None,
        }) == parse_bool(s@, i as int),
        r is Some ==> i <= (r->0).1 <= s@.len(),
{
    let lit_t = lit_tok_true();
    let lit_f = lit_tok_false();
    match expect_x(s, i, lit_t.as_slice()) {
        Option::Some(j) => Option::Some((true, j)),
        Option::None => match expect_x(s, i, lit_f.as_slice()) {
            Option::Some(j) => Option::Some((false, j)),
            Option::None => Option::None,
        },
    }
}

/// Reads `null` or a status code.
fn parse_opt_code_x(s: &[u8], i: usize) -> (r: Option<(Option<u16>, usize)>)
    requires
        i <= s@.len(),
    ensures
        (match r {
            Option::Some((v, j)) => Option::Some((v, j as int)),
            Option::None => Option::None,
        }) == parse_opt_code(s@, i as int),
        r is Some ==> i <= (r->0).1 <= s@.len(),
{
    let lit_n = lit_tok_null();
    match expect_x(s, i, lit_n.as_slice()) {
        Option::Some(j) => Option::Some((Option::None, j)),
        Option::None => match parse_u64_x(s, i) {
            Option::Some((v, j)) => {
                if v <= 65535 {
                    Option::Some((Option::Some(v as u16), j))
                } else {
                    Option::None
                }
            },
            Option::None => Option::None,
        },
    }
}

/// Reads a classified error value.
fn parse_error_x(s: &[u8], i: usize) -> (r: Option<(CheckError, usize)>)
    requires
        i <= s@.len(),
    ensures
        (match r {
            Option::Some((v, j)) => Option::Some((v@, j as int)),
            Option::None => Option::None,
        }) == parse_error(s@, i as int),
        r is Some ==> i <= (r->0).1 <= s@.len() && (r->0).0.wf(),
{
    if i < s.len() && s[i] == 34 {
        match parse_quoted_x(s, i) {
            Option::Some((content, j)) => {
                let lit_to = lit_tok_timeout();
                let lit_dns = lit_tok_dns();
                let lit_ref = lit_tok_refused();
                let lit_tls = lit_tok_tls();
                let lit_inv = lit_tok_invalid();
                if strutil::bytes_eq(content.as_slice(), lit_to.as_slice()) {
                    Option::Some((CheckError::Timeout, j))
                } else if strutil::bytes_eq(content.as_slice(), lit_dns.as_slice()) {
                    Option::Some((CheckError::DnsFailure, j))
                } else if strutil::bytes_eq(content.as_slice(), lit_ref.as_slice()) {
                    Option::Some((CheckError::ConnectionRefused, j))
                } else if strutil::bytes_eq(content.as_slice(), lit_tls.as_slice()) {
                    Option::Some((CheckError::TlsError, j))
                } else if strutil::bytes_eq(content.as_slice(), lit_inv.as_slice()) {
                    Option::Some((CheckError::InvalidRequest, j))
                } else {
                    Option::None
                }
            },
            Option::None => Option::None,
        }
    } else {
        let lit_h = lit_seg_http();
        let lit_o = lit_seg_other();
        let lit_close: [u8; 1] = [125];
        proof {
            assert(lit_close@ =~= seq![125u8]);
        }
        match expect_x(s, i, lit_h.as_slice()) {
            Option::Some(i1) => match parse_u64_x(s, i1) {
                Option::Some((v, j)) => {
                    if v <= 65535 {
                        match expect_x(s, j, lit_close.as_slice()) {
                            Option::Some(j2) => Option::Some(
                                (CheckError::HttpStatus(v as u16), j2),
                            ),
                            Option::None => Option::None,
                        }
                    } else {
                        Option::None
                    }
                },
                Option::None => Option::None,
            },
            Option::None => match expect_x(s, i, lit_o.as_slice()) {
                Option::Some(i1) => match parse_quoted_x(s, i1) {
                    Option::Some((m, j)) => match expect_x(s, j, lit_close.as_slice()) {
                        Option::Some(j2) => {
                            proof {
                                lemma_parse_quoted_plain(s@, i1 as int);
                                lemma_plain_bytes_text(m@);
                            }
                            let text = strutil::ascii_string(&m);
                            Option::Some((CheckError::Other(text), j2))
                        },
                        Option::None => Option::None,
                    },
                    Option::None => Option::None,
                },
                Option::None => Option::None,
            },
        }
    }
}


/// Reads the leading fields of a target object.
fn parse_target_meta_x(s: &[u8], i: usize) -> (r: Option<(CheckTarget, bool, usize)>)
    requires
        i <= s@.len(),
    ensures
        (match r {
            Option::Some((tgt, b, j)) => Option::Some((tgt, b, j as int)),
            Option::None => Option::None,
        }) == parse_target_meta(s@, i as int),
        r is Some ==> i <= (r->0).2 <= s@.len(),
{
    let lit_t = lit_seg_target();
    let lit_s = lit_seg_success();
    match expect_x(s, i, lit_t.as_slice()) {
        Option::Some(i1) => match parse_target_kw_x(s, i1) {
            Option::Some((tgt, i2)) => match expect_x(s, i2, lit_s.as_slice()) {
                Option::Some(i3) => match parse_bool_x(s, i3) {
                    Option::Some((b, i4)) => Option::Some((tgt, b, i4)),
                    Option::None => Option::None,
                },
                Option::None => Option::None,
            },
            Option::None => Option::None,
        },
        Option::None => Option::None,
    }
}

/// Reads the latency fields of a target object.
fn parse_target_latency_x(s: &[u8], i: usize) -> (r: Option<(Latency, usize)>)
    requires
        i <= s@.len(),
    ensures
        (match r {
            Option::Some((l, j)) => Option::Some((l, j as int)),
            Option::None => Option::None,
        }) == parse_target_latency(s@, i as int),
        r is Some ==> i <= (r->0).1 <= s@.len(),
{
    let lit_l = lit_seg_latency();
    let lit_ls = lit_seg_latency_speed();
    match expect_x(s, i, lit_l.as_slice()) {
        Option::Some(i5) => match parse_u64_x(s, i5) {
            Option::Some((lat, i6)) => match expect_x(s, i6, lit_ls.as_slice()) {
                Option::Some(i7) => match parse_speed_x(s, i7) {
                    Option::Some((spd, i8)) => Option::Some(
                        (Latency { duration: lat, speed: spd }, i8),
                    ),
                    Option::None => Option::None,
                },
                Option::None => Option::None,
            },
            Option::None => Option::None,
        },
        Option::None => Option::None,
    }
}

/// Reads the trailing fields of a target object.
fn parse_target_extras_x(s: &[u8], i: usize) -> (r: Option<
    (Option<u16>, Option<CheckError>, usize),
>)
    requires
        i <= s@.len(),
    ensures
        (match r {
            Option::Some((code, err, j)) => Option::Some(
                (
                    code,
                    match err {
                        Option::Some(e) => Option::Some(e@),
                        Option::None => Option::None,
                    },
                    j as int,
                ),
            ),
            Option::None => Option::None,
        }) == parse_target_extras(s@, i as int),
        r is Some ==> i <= (r->0).2 <= s@.len(),
        r is Some ==> (match (r->0).1 {
            Option::Some(e) => e.wf(),
            Option::None => true,
        }),
{
    let lit_st = lit_seg_status();
    let lit_e = lit_seg_error();
    let lit_n = lit_tok_null();
    let lit_close: [u8; 1] = [125];
    proof {
        assert(lit_close@ =~= seq![125u8]);
    }
    match expect_x(s, i, lit_st.as_slice()) {
        Option::Some(i9) => match parse_opt_code_x(s, i9) {
            Option::Some((code, i10)) => match expect_x(s, i10, lit_e.as_slice()) {
                Option::Some(i11) => {
                    let err_parsed: Option<(Option<CheckError>, usize)> = match expect_x(
                        s,
                        i11,
                        lit_n.as_slice(),
                    ) {
                        Option::Some(j) => Option::Some((Option::None, j)),
                        Option::None => match parse_error_x(s, i11) {
                            Option::Some((e, j)) => Option::Some((Option::Some(e), j)),
                            Option::None => Option::None,
                        },
                    };
                    match err_parsed {
                        Option::Some((err, i12)) => match expect_x(s, i12, lit_close.as_slice()) {
                            Option::Some(i13) => Option::Some((code, err, i13)),
                            Option::None => Option::None,
                        },
                        Option::None => Option::None,
                    }
                },
                Option::None => Option::None,
            },
            Option::None => Option::None,
        },
        Option::None => Option::None,
    }
}

/// Reads one target object.
fn parse_target_x(s: &[u8], i: usize) -> (r: Option<(TargetResult, usize)>)
    requires
        i <= s@.len(),
    ensures
        (match r {
            Option::Some((t, j)) => Option::Some((t@, j as int)),
            Option::None => Option::None,
        }) == parse_target(s@, i as int),
        r is Some ==> i <= (r->0).1 <= s@.len() && (r->0).0.wf(),
{
    match parse_target_meta_x(s, i) {
        Option::Some((tgt, suc, j1)) => match parse_target_latency_x(s, j1) {
            Option::Some((lat, j2)) => match parse_target_extras_x(s, j2) {
                Option::Some((code, err, j3)) => Option::Some(
                    (
                        TargetResult {
                            target: tgt,
                            success: suc,
                            latency: lat,
                            status_code: code,
                            error: err,
                        },
                        j3,
                    ),
                ),
                Option::None => Option::None,
            },
            Option::None => Option::None,
        },
        Option::None => Option::None,
    }
}

/// Reads the remaining target objects of a non-empty array, including the
/// closing bracket.
fn parse_targets_rest_x(s: &[u8], i: usize, fuel: usize) -> (r: Option<
    (Vec<TargetResult>, usize),
>)
    requires
        i <= s@.len(),
    ensures
        (match r {
            Option::Some((ts, j)) => Option::Some(
                (ts@.map_values(|t: TargetResult| t@), j as int),
            ),
            Option::None => Option::None,
        }) == parse_targets_rest(s@, i as int, fuel as nat),
        r is Some ==> i <= (r->0).1 <= s@.len(),
        r is Some ==> forall|k: int|
            0 <= k < (r->0).0@.len() ==> (#[trigger] (r->0).0@[k]).wf(),
    decreases fuel,
{
    if fuel == 0 {
        return Option::None;
    }
    let lit_close: [u8; 1] = [93];
    let lit_comma: [u8; 1] = [44];
    proof {
        assert(lit_close@ =~= seq![93u8]);
        assert(lit_comma@ =~= seq![44u8]);
    }
    match parse_target_x(s, i) {
        Option::Some((t, j)) => {
            match expect_x(s, j, lit_close.as_slice()) {
                Option::Some(j2) => {
                    let mut one: Vec<TargetResult> = Vec::new();
                    one.push(t);
                    proof {
                        assert(one@.map_values(|t: TargetResult| t@) =~= seq![one@[0]@]);
                    }
                    Option::Some((one, j2))
                },
                Option::None => match expect_x(s, j, lit_comma.as_slice()) {
                    Option::Some(j2) => match parse_targets_rest_x(s, j2, fuel - 1) {
                        Option::Some((rest_ts, k)) => {
                            let mut all: Vec<TargetResult> = Vec::new();
                            all.push(t);
                            let mut rest_ts = rest_ts;
                            let ghost t_view = all@[0]@;
                            let ghost rest_view = rest_ts@.map_values(|t: TargetResult| t@);
                            all.append(&mut rest_ts);
                            proof {
                                assert(all@.map_values(|t: TargetResult| t@) =~= seq![t_view]
                                    + rest_view);
                            }
                            Option::Some((all, k))
                        },
                        Option::None => Option::None,
                    },
                    Option::None => Option::None,
                },
            }
        },
        Option::None => Option::None,
    }
}

/// Reads a whole target array after its opening bracket.
fn parse_targets_x(s: &[u8], i: usize) -> (r: Option<(Vec<TargetResult>, usize)>)
    requires
        i <= s@.len(),
    ensures
        (match r {
            Option::Some((ts, j)) => Option::Some(
                (ts@.map_values(|t: TargetResult| t@), j as int),
            ),
            Option::None => Option::None,
        }) == parse_targets(s@, i as int),
        r is Some ==> i <= (r->0).1 <= s@.len(),
        r is Some ==> forall|k: int|
            0 <= k < (r->0).0@.len() ==> (#[trigger] (r->0).0@[k]).wf(),
{
    let lit_close: [u8; 1] = [93];
    proof {
        assert(lit_close@ =~= seq![93u8]);
    }
    match expect_x(s, i, lit_close.as_slice()) {
        Option::Some(j) => {
            let empty_ts: Vec<TargetResult> = Vec::new();
            proof {
                assert(empty_ts@.map_values(|t: TargetResult| t@) =~= Seq::<TargetV>::empty());
            }
            Option::Some((empty_ts, j))
        },
        Option::None => parse_targets_rest_x(s, i, s.len()),
    }
}

/// Reads the quoted timestamp that opens a sample object.
fn parse_sample_head_x(s: &[u8], i: usize) -> (r: Option<(u64, usize)>)
    requires
        i <= s@.len(),
    ensures
        (match r {
            Option::Some((ms, j)) => Option::Some((ms, j as int)),
            Option::None => Option::None,
        }) == parse_sample_head(s@, i as int),
        r is Some ==> i <= (r->0).1 <= s@.len() && (r->0).0 < 253402300800000,
{
    let lit_ts = lit_seg_timestamp();
    match expect_x(s, i, lit_ts.as_slice()) {
        Option::Some(i1) => match parse_quoted_x(s, i1) {
            Option::Some((tsc, i2)) => match parse_rfc_x(tsc.as_slice()) {
                Option::Some(ms) => Option::Some((ms, i2)),
                Option::None => Option::None,
            },
            Option::None => Option::None,
        },
        Option::None => Option::None,
    }
}

/// Reads one sample object.
fn parse_sample_x(s: &[u8], i: usize) -> (r: Option<(InternetCheckResult, usize)>)
    requires
        i <= s@.len(),
    ensures
        (match r {
            Option::Some((icr, j)) => Option::Some((icr@, j as int)),
            Option::None => Option::None,
        }) == parse_sample(s@, i as int),
        r is Some ==> i <= (r->0).1 <= s@.len() && (r->0).0.wf(),
{
    let lit_c = lit_seg_connectivity();
    let lit_sp = lit_seg_speed();
    let lit_r = lit_seg_results();
    let lit_a = lit_seg_avg();
    let lit_close: [u8; 1] = [125];
    proof {
        assert(lit_close@ =~= seq![125u8]);
    }
    match parse_sample_head_x(s, i) {
        Option::Some((ms, j1)) => match expect_x(s, j1, lit_c.as_slice()) {
            Option::Some(i3) => match parse_connectivity_x(s, i3) {
                Option::Some((conn, i4)) => match expect_x(s, i4, lit_sp.as_slice()) {
                    Option::Some(i5) => match parse_speed_x(s, i5) {
                        Option::Some((spd, i6)) => match expect_x(s, i6, lit_r.as_slice()) {
                            Option::Some(i7) => match parse_targets_x(s, i7) {
                                Option::Some((ts, i8)) => match expect_x(
                                    s,
                                    i8,
                                    lit_a.as_slice(),
                                ) {
                                    Option::Some(i9) => match parse_u64_x(s, i9) {
                                        Option::Some((avg, i10)) => match expect_x(
                                            s,
                                            i10,
                                            lit_close.as_slice(),
                                        ) {
                                            Option::Some(i11) => {
                                                let icr = InternetCheckResult {
                                                    timestamp: ms,
                                                    connectivity: conn,
                                                    speed: spd,
                                                    results: ts,
                                                    avg: avg,
                                                };
                                                Option::Some((icr, i11))
                                            },
                                            Option::None => Option::None,
                                        },
                                        Option::None => Option::None,
                                    },
                                    Option::None => Option::None,
                                },
                                Option::None => Option::None,
                            },
                            Option::None => Option::None,
                        },
                        Option::None => Option::None,
                    },
                    Option::None => Option::None,
                },
                Option::None => Option::None,
            },
            Option::None => Option::None,
        },
        Option::None => Option::None,
    }
}

/// Reads one whole log line and yields the sample it carries, if the line
/// is well formed and carries one. Malformed lines yield nothing, so one
/// corrupt line never invalidates the rest of a file.
pub fn parse_log_line(line: &[u8]) -> (r: Option<InternetCheckResult>)
    ensures
        (match r {
            Option::Some(icr) => extract_sample(line@) == Option::Some(icr@),
            Option::None => extract_sample(line@) is None,
        }),
        (match r {
            Option::Some(icr) => icr.wf(),
            Option::None => true,
        }),
{
    let lit_ts = lit_seg_timestamp();
    let lit_m = lit_seg_message();
    let lit_r = lit_seg_result();
    let lit_close: [u8; 1] = [125];
    proof {
        assert(lit_close@ =~= seq![125u8]);
    }
    let env_end: Option<usize> = match expect_x(line, 0, lit_ts.as_slice()) {
        Option::Some(i1) => match parse_quoted_x(line, i1) {
            Option::Some((_tsc, i2)) => match expect_x(line, i2, lit_m.as_slice()) {
                Option::Some(i3) => match parse_quoted_x(line, i3) {
                    Option::Some((_msg, i4)) => Option::Some(i4),
                    Option::None => Option::None,
                },
                Option::None => Option::None,
            },
            Option::None => Option::None,
        },
        Option::None => Option::None,
    };
    match env_end {
        Option::Some(i4) => {
            let at_end: bool = match expect_x(line, i4, lit_close.as_slice()) {
                Option::Some(j) => j == line.len(),
                Option::None => false,
            };
            if at_end {
                Option::None
            } else {
                match expect_x(line, i4, lit_r.as_slice()) {
                    Option::Some(i5) => match parse_sample_x(line, i5) {
                        Option::Some((icr, i6)) => match expect_x(line, i6, lit_close.as_slice()) {
                            Option::Some(j) => {
                                if j == line.len() {
                                    Option::Some(icr)
                                } else {
                                    Option::None
                                }
                            },
                            Option::None => Option::None,
                        },
                        Option::None => Option::None,
                    },
                    Option::None => Option::None,
                }
            }
        },
        Option::None => Option::None,
    }
}

/// The samples carried by a sequence of log lines, in order; malformed
/// lines and plain message lines are skipped.
pub open spec fn samples_of_lines(lines: Seq<Seq<u8>>) -> Seq<SampleV>
    decreases lines.len(),
{
    if lines.len() == 0 {
        Seq::empty()
    } else {
        samples_of_lines(lines.drop_last()) + match extract_sample(lines.last()) {
            Option::Some(sv) => seq![sv],
            Option::None => Seq::empty(),
        }
    }
}

/// Reconstructs the samples of one log file from its lines, in order,
/// skipping whatever does not parse.
pub fn collect_results_from_lines(lines: &Vec<Vec<u8>>) -> (r: Vec<InternetCheckResult>)
    ensures
        r@.map_values(|icr: InternetCheckResult| icr@) == samples_of_lines(
            lines@.map_values(|l: Vec<u8>| l@),
        ),
        forall|k: int| 0 <= k < r@.len() ==> (#[trigger] r@[k]).wf(),
{
    let ghost lviews = lines@.map_values(|l: Vec<u8>| l@);
    let mut out: Vec<InternetCheckResult> = Vec::new();
    let mut i: usize = 0;
    while i < lines.len()
        invariant
            i <= lines@.len(),
            lviews == lines@.map_values(|l: Vec<u8>| l@),
            out@.map_values(|icr: InternetCheckResult| icr@) == samples_of_lines(
                lviews.subrange(0, i as int),
            ),
            forall|k: int| 0 <= k < out@.len() ==> (#[trigger] out@[k]).wf(),
        decreases lines@.len() - i,
    {
        proof {
            assert(lviews.subrange(0, i + 1 as int).drop_last() =~= lviews.subrange(
                0,
                i as int,
            ));
            assert(lviews.subrange(0, i + 1 as int).last() == lviews[i as int]);
            assert(lviews[i as int] == lines@[i as int]@);
        }
        match parse_log_line(lines[i].as_slice()) {
            Option::Some(icr) => {
                out.push(icr);
            },
            Option::None => (),
        }
        i = i + 1;
        proof {
            assert(out@.map_values(|icr: InternetCheckResult| icr@) =~= samples_of_lines(
                lviews.subrange(0, i as int),
            ));
        }
    }
    proof {
        assert(lviews.subrange(0, lviews.len() as int) =~= lviews);
    }
    out
}

/// Splits a byte stream into its lines, one more than there are newline
/// bytes: empty input is one empty line, and a trailing newline yields a
/// final empty line.
pub open spec fn split_lines(s: Seq<u8>) -> Seq<Seq<u8>>
    decreases s.len(),
{
    if s.len() == 0 {
        seq![Seq::empty()]
    } else if s.last() == 10 {
        split_lines(s.drop_last()).push(Seq::empty())
    } else {
        let pre = split_lines(s.drop_last());
        pre.update(pre.len() - 1, pre.last().push(s.last()))
    }
}


/// Splits a file's bytes into lines at each newline byte.
pub fn split_lines_x(s: &[u8]) -> (r: Vec<Vec<u8>>)
    ensures
        r@.map_values(|l: Vec<u8>| l@) == split_lines(s@),
{
    let mut acc: Vec<Vec<u8>> = Vec::new();
    let mut cur: Vec<u8> = Vec::new();
    let mut i: usize = 0;
    while i < s.len()
        invariant
            i <= s@.len(),
            split_lines(s@.subrange(0, i as int)) == acc@.map_values(|l: Vec<u8>| l@).push(
                cur@,
            ),
        decreases s@.len() - i,
    {
        let ghost prefix = s@.subrange(0, i as int);
        let ghost acc_views = acc@.map_values(|l: Vec<u8>| l@);
        proof {
            assert(s@.subrange(0, i + 1 as int).drop_last() =~= prefix);
            assert(s@.subrange(0, i + 1 as int).last() == s@[i as int]);
            if i == 0 {
                assert(prefix =~= Seq::<u8>::empty());
            }
        }
        if s[i] == 10 {
            let done = cur;
            cur = Vec::new();
            acc.push(done);
            proof {
                assert(acc@.map_values(|l: Vec<u8>| l@) =~= acc_views.push(acc@.last()@));
                assert(split_lines(s@.subrange(0, i + 1 as int)) =~= acc@.map_values(
                    |l: Vec<u8>| l@,
                ).push(cur@));
            }
        } else {
            let ghost old_cur = cur@;
            cur.push(s[i]);
            proof {
                let pre_split = split_lines(prefix);
                assert(pre_split == acc_views.push(old_cur));
                assert(pre_split.last() == old_cur);
                assert(split_lines(s@.subrange(0, i + 1 as int)) == pre_split.update(
                    pre_split.len() - 1,
                    old_cur.push(s@[i as int]),
                ));
                assert(split_lines(s@.subrange(0, i + 1 as int)) =~= acc@.map_values(
                    |l: Vec<u8>| l@,
                ).push(cur@));
            }
        }
        i = i + 1;
    }
    proof {
        assert(s@.subrange(0, s@.len() as int) =~= s@);
    }
    acc.push(cur);
    proof {
        assert(acc@.map_values(|l: Vec<u8>| l@) =~= split_lines(s@));
    }
    acc
}

} // verus!
