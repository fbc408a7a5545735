//! Codes, errors and texts.

use crate::ascii::{
    any_item, contains_ignore_case, eq_bytes, eq_ignore_case, item_at, same_but_case, separator,
};
use crate::buffer::be32;
use crate::crypto::{accept_key, base64_of, sha1_of};
use crate::errors::{
    http_fault, Cause, CloseCause, Error, ErrorKind, Failure, HttpError, HttpErrorView,
    ProtocolError, ProtocolErrorView,
};
use crate::framed::CodecFlags;
use crate::handshake::{url_text, TryIntoRequest};
use crate::http_types::{uri_of, Request, Uri, UriView, Version};
use crate::laws::frames::{big_endian, lemma_be32};
use crate::protocol::{
    apply_mask, lemma_masking_twice, CloseCode, CloseCodeParseErr, ControlCode, DataCode,
    HeaderFlags, OpCode, OpCodeParseErr, Role, WebSocketConfig,
};
use crate::ratchet_ext::RsvBits;
use crate::text::{decimal, decimal_text, digit};
use url::Url;
use vstd::prelude::*;
use vstd::utf8::encode_utf8;

verus! {

/// Whether a number is one that a close code stands for.
pub open spec fn closes_with_number(code: CloseCode, number: int) -> bool {
    match code {
        CloseCode::Normal => number == 1000,
        CloseCode::GoingAway => number == 1001,
        CloseCode::Protocol => number == 1002,
        CloseCode::Unsupported => number == 1003,
        CloseCode::Status => number == 1005,
        CloseCode::Abnormal => number == 1006,
        CloseCode::Invalid => number == 1007,
        CloseCode::Policy => number == 1008,
        CloseCode::Overflow => number == 1009,
        CloseCode::Extension => number == 1010,
        CloseCode::Unexpected => number == 1011,
        CloseCode::Restarting => number == 1012,
        CloseCode::TryAgain => number == 1013,
        CloseCode::Tls => number == 1015,
        CloseCode::ReservedExtension(n) => number == n && 2000 <= number <= 2999,
        CloseCode::Library(n) => number == n && 3000 <= number <= 3999,
        CloseCode::Application(n) => number == n && 4000 <= number <= 4999,
    }
}

/// Two bytes are read as the close code that stands for their number. A number that no code stands
/// for is rejected and named.
pub proof fn law_close_code_read(bytes: [u8; 2], result: Result<CloseCode, CloseCodeParseErr>)
    requires
        call_ensures(<CloseCode as TryFrom<[u8; 2]>>::try_from, (bytes,), result),
    ensures
        ({
            let number = bytes@[0] * 256 + bytes@[1];
            match result {
                Ok(code) => closes_with_number(code, number),
                Err(e) => e.0 == number && forall|code: CloseCode| !#[trigger] closes_with_number(
                    code,
                    number,
                ),
            }
        }),
{
}

/// A close code is written as the number that it stands for, and read back.
pub proof fn law_close_code_written(
    code: CloseCode,
    number: u16,
    bytes: [u8; 2],
    result: Result<CloseCode, CloseCodeParseErr>,
)
    requires
        exists|n: int| #[trigger] closes_with_number(code, n),
        call_ensures(<u16 as From<CloseCode>>::from, (code,), number),
        bytes@[0] == number / 256,
        bytes@[1] == number % 256,
        call_ensures(<CloseCode as TryFrom<[u8; 2]>>::try_from, (bytes,), result),
    ensures
        closes_with_number(code, number as int),
        result == Ok::<CloseCode, CloseCodeParseErr>(code),
{
}

/// A peer must never send the codes that say that there was none, that the connection was lost or
/// that it could not be secured, nor those that are kept for extensions.
pub proof fn law_illegal_codes(code: &CloseCode, number: u16, illegal: bool)
    requires
        exists|n: int| #[trigger] closes_with_number(*code, n),
        call_ensures(<u16 as From<CloseCode>>::from, (*code,), number),
        call_ensures(CloseCode::is_illegal, (code,), illegal),
    ensures
        illegal <==> number == 1005 || number == 1006 || number == 1015 || 2000 <= number <= 2999,
{
}

/// Operation codes are read from the numbers that stand for them. The other numbers of four bits
/// are reserved, and larger ones are invalid.
pub proof fn law_op_code_read(number: u8, result: Result<OpCode, OpCodeParseErr>)
    requires
        call_ensures(<OpCode as TryFrom<u8>>::try_from, (number,), result),
    ensures
        match result {
            Ok(OpCode::DataCode(DataCode::Continuation)) => number == 0,
            Ok(OpCode::DataCode(DataCode::Text)) => number == 1,
            Ok(OpCode::DataCode(DataCode::Binary)) => number == 2,
            Ok(OpCode::ControlCode(ControlCode::Close)) => number == 8,
            Ok(OpCode::ControlCode(ControlCode::Ping)) => number == 9,
            Ok(OpCode::ControlCode(ControlCode::Pong)) => number == 10,
            Err(OpCodeParseErr::Reserved(n)) => n == number && (3 <= number <= 7 || 11 <= number
                <= 15),
            Err(OpCodeParseErr::Invalid(n)) => n == number && number >= 16,
        },
{
}

/// An operation code is written as its number and read back.
pub proof fn law_op_code_written(
    code: OpCode,
    number: u8,
    result: Result<OpCode, OpCodeParseErr>,
)
    requires
        call_ensures(<u8 as From<OpCode>>::from, (code,), number),
        call_ensures(<OpCode as TryFrom<u8>>::try_from, (number,), result),
    ensures
        result == Ok::<OpCode, OpCodeParseErr>(code),
        number < 16,
        number >= 8 <==> code is ControlCode,
{
}

/// The flags of a frame are the upper four bits of its first byte, and are read back from them.
pub proof fn law_header_flags(flags: &HeaderFlags, bits: u8, low: u8, again: HeaderFlags)
    requires
        low < 16,
        call_ensures(HeaderFlags::bits, (flags,), bits),
        call_ensures(HeaderFlags::from_bits_truncate, ((bits + low) as u8,), again),
    ensures
        bits == (if flags.fin { 128int } else { 0 }) + (if flags.rsv_1 { 64int } else { 0 }) + (
        if flags.rsv_2 { 32int } else { 0 }) + (if flags.rsv_3 { 16int } else { 0 }),
        again == *flags,
{
}

/// The reserved bits that an extension may set stand where a frame has them.
pub proof fn law_reserved_bits(bits: RsvBits, byte: u8)
    requires
        call_ensures(<u8 as From<RsvBits>>::from, (bits,), byte),
    ensures
        byte == (if bits.rsv1 { 64int } else { 0 }) + (if bits.rsv2 { 32int } else { 0 }) + (
        if bits.rsv3 { 16int } else { 0 }),
{
}

/// A connection that is opened knows its role and the reserved bits that were negotiated, and no
/// message has been started. The bits that were not negotiated are those that no frame may have.
pub proof fn law_flags_opened(
    role: Role,
    bits: RsvBits,
    flags: CodecFlags,
    end: Role,
    reserved: u8,
)
    requires
        call_ensures(CodecFlags::new, (role, bits), flags),
        call_ensures(CodecFlags::endpoint, (&flags,), end),
        call_ensures(CodecFlags::reserved, (&flags,), reserved),
    ensures
        end == role,
        !flags.r_cont && !flags.w_cont && !flags.cont_type,
        reserved == (if bits.rsv1 { 0int } else { 64 }) + (if bits.rsv2 { 0int } else { 32 }) + (
        if bits.rsv3 { 0int } else { 16 }),
{
}

/// Masking twice with the same key gives back what was there. Masking combines each byte with the
/// byte of the key that falls to it: the bytes of the key fall to the bytes in turn, the highest of
/// them first.
pub proof fn law_masked(mask: u32, bytes: &mut [u8], again: &mut [u8], done: ())
    requires
        call_ensures(apply_mask, (mask, bytes), done),
        old(again)@ == final(bytes)@,
        call_ensures(apply_mask, (mask, again), done),
    ensures
        final(again)@ == old(bytes)@,
        exists|key: Seq<u8>|
            {
                &&& key.len() == 4
                &&& #[trigger] big_endian(key) == mask
                &&& final(bytes)@ == Seq::new(
                    old(bytes)@.len(),
                    |i: int| old(bytes)@[i] ^ key[i % 4],
                )
            },
{
    lemma_masking_twice(mask, old(bytes)@);
    lemma_be32(mask);
    let key = be32(mask);
    assert(final(bytes)@ =~= Seq::new(old(bytes)@.len(), |i: int| old(bytes)@[i] ^ key[i % 4]));
    assert(big_endian(key) == mask);
}

/// The largest message that is accepted by default has 64 MiB.
pub proof fn law_default_limit(config: WebSocketConfig)
    requires
        call_ensures(<WebSocketConfig as Default>::default, (), config),
    ensures
        config.max_message_size == 67108864,
{
}

/// An error tells its kind and what led to it.
pub proof fn law_error_tells(
    kind: ErrorKind,
    cause: Cause,
    error: Error,
    told: ErrorKind,
    why: Option<&Cause>,
    http: Option<&HttpError>,
    close: Option<CloseCause>,
    is_io: bool,
    is_protocol: bool,
    is_close: bool,
)
    requires
        call_ensures(Error::with_cause, (kind, cause), error),
        call_ensures(Error::kind, (&error,), told),
        call_ensures(Error::cause, (&error,), why),
        call_ensures(Error::http_cause, (&error,), http),
        call_ensures(Error::close_cause, (&error,), close),
        call_ensures(Error::is_io, (&error,), is_io),
        call_ensures(Error::is_protocol, (&error,), is_protocol),
        call_ensures(Error::is_close, (&error,), is_close),
    ensures
        told == kind,
        why matches Some(why) && why@ == cause@,
        match cause {
            Cause::Http(e) => http matches Some(told) && told@ == e@,
            _ => http is None,
        },
        match cause {
            Cause::Close(e) => close == Some(e),
            _ => close is None,
        },
        is_io <==> kind is IO,
        is_protocol <==> kind is Protocol,
        is_close <==> kind is Close,
{
}

/// The errors of the protocol, of the opening handshake and of a connection that is not open have
/// the kind that they should have, and a failure has the kind of its error.
pub proof fn law_error_kinds<X>(
    breach: ProtocolError,
    fault: HttpError,
    cause: CloseCause,
    protocol: Error,
    http: Error,
    close: Error,
    kinds: (ErrorKind, ErrorKind, ErrorKind),
    failure: &Failure<X>,
    failure_kind: ErrorKind,
)
    requires
        call_ensures(Error::protocol, (breach,), protocol),
        call_ensures(Error::http, (fault,), http),
        call_ensures(Error::close, (cause,), close),
        call_ensures(Error::kind, (&protocol,), kinds.0),
        call_ensures(Error::kind, (&http,), kinds.1),
        call_ensures(Error::kind, (&close,), kinds.2),
        call_ensures(Failure::<X>::kind, (failure,), failure_kind),
    ensures
        kinds == (ErrorKind::Protocol, ErrorKind::Http, ErrorKind::Close),
        match *failure {
            Failure::Core(e) => failure_kind == e@.kind,
            Failure::Extension(_) => failure_kind is Extension,
        },
{
}

/// What a peer did is told in words.
pub proof fn law_breach_rendered(breach: &ProtocolError, text: String)
    requires
        call_ensures(ProtocolError::render, (breach,), text),
    ensures
        text@ == match breach@ {
            ProtocolErrorView::Encoding => "Not valid UTF-8 encoding"@,
            ProtocolErrorView::OpCode(OpCodeParseErr::Reserved(n)) => "Reserved OpCode: `"@ + decimal(
                n as nat,
            ) + "`"@,
            ProtocolErrorView::OpCode(OpCodeParseErr::Invalid(n)) => "Invalid OpCode: `"@ + decimal(
                n as nat,
            ) + "`"@,
            ProtocolErrorView::UnmaskedFrame => "Received an unexpected unmasked frame"@,
            ProtocolErrorView::MaskedFrame => "Received an unexpected masked frame"@,
            ProtocolErrorView::FragmentedControl => "Received a fragmented control frame"@,
            ProtocolErrorView::FrameOverflow => "A frame exceeded the maximum permitted size"@,
            ProtocolErrorView::UnknownExtension =>
                "Received reserved bits that no extension has negotiated"@,
            ProtocolErrorView::ContinuationNotStarted => "Continuation not started"@,
            ProtocolErrorView::ContinuationAlreadyStarted => "Continuation already started"@,
            ProtocolErrorView::CloseCode(n) => "Received a reserved close code: `"@ + decimal(
                n as nat,
            ) + "`"@,
            ProtocolErrorView::InvalidSubprotocolHeader(header) => "Invalid subprotocol header: `"@
                + header + "`"@,
        },
{
}

/// What is wrong with a request or a response is told in words.
pub proof fn law_fault_rendered(fault: &HttpError, text: String)
    requires
        call_ensures(HttpError::render, (fault,), text),
    ensures
        text@ == match fault@ {
            HttpErrorView::HttpMethod(Some(method)) => "Invalid HTTP method: `"@ + method + "`"@,
            HttpErrorView::HttpMethod(None) => "Missing HTTP method"@,
            HttpErrorView::Redirected(location) => "Redirected to: `"@ + location + "`"@,
            HttpErrorView::Status(Some(code)) => "Unexpected status code: `"@ + decimal(
                code as nat,
            ) + "`"@,
            HttpErrorView::Status(None) => "Missing status code"@,
            HttpErrorView::HttpVersion(version) => "Invalid HTTP version: `"@ + version + "`"@,
            HttpErrorView::VersionNumber(Some(number)) => "Unknown HTTP version: `"@ + decimal(
                number as nat,
            ) + "`"@,
            HttpErrorView::VersionNumber(None) => "Missing HTTP version"@,
            HttpErrorView::MissingHeader(name) => "Missing header: `"@ + name + "`"@,
            HttpErrorView::InvalidHeader(name) => "Invalid header: `"@ + name + "`"@,
            HttpErrorView::MalformattedUri(Some(uri)) => "Malformatted URI: `"@ + uri + "`"@,
            HttpErrorView::MalformattedUri(None) => "Malformatted URI"@,
            HttpErrorView::MalformattedHeader(header) => "Malformatted header: `"@ + header + "`"@,
            HttpErrorView::MissingAuthority => "Missing authority"@,
            HttpErrorView::TooManyHeaders => "Too many headers"@,
            HttpErrorView::KeyMismatch => "Mismatched key"@,
        },
{
}

/// The number that decimal digits stand for.
pub open spec fn number_in(digits: Seq<char>) -> int
    decreases digits.len(),
{
    if digits.len() == 0 {
        0
    } else {
        number_in(digits.drop_last()) * 10 + (digits.last() as int - '0' as int)
    }
}

/// The decimal digits of a number stand for it.
proof fn lemma_decimal(n: nat)
    ensures
        number_in(decimal(n)) == n,
        decimal(n).len() > 0,
        forall|i: int| 0 <= i < decimal(n).len() ==> '0' <= #[trigger] decimal(n)[i] <= '9',
        decimal(n)[0] == '0' ==> n == 0,
    decreases n,
{
    let last = digit(n % 10);
    assert(last as int == 48 + n % 10);
    if n < 10 {
        assert(decimal(n).drop_last() =~= Seq::<char>::empty());
        assert(number_in(decimal(n).drop_last()) == 0);
        assert(decimal(n).last() == last);
    } else {
        lemma_decimal(n / 10);
        assert(decimal(n).drop_last() =~= decimal(n / 10));
        assert(decimal(n)[0] == decimal(n / 10)[0]);
        assert(decimal(n).last() == last);
    }
}

/// A number is written in decimal digits that stand for it, without leading zeros.
pub proof fn law_decimal_text(n: u64, text: String)
    requires
        call_ensures(decimal_text, (n,), text),
    ensures
        number_in(text@) == n,
        forall|i: int| 0 <= i < text@.len() ==> '0' <= #[trigger] text@[i] <= '9',
        text@.len() > 0,
        text@[0] == '0' ==> n == 0,
{
    lemma_decimal(n as nat);
}

/// Whether two bytes are the same letter in ASCII, or the same byte.
pub open spec fn same_letter(a: u8, b: u8) -> bool {
    ||| a == b
    ||| 65 <= a <= 90 && b == a + 32
    ||| 65 <= b <= 90 && a == b + 32
}

/// Whether runs of bytes have the same letters.
pub open spec fn same_letters(a: Seq<u8>, b: Seq<u8>) -> bool {
    a.len() == b.len() && forall|i: int| 0 <= i < a.len() ==> same_letter(#[trigger] a[i], b[i])
}

/// Bytes are compared without regard to the case of ASCII letters, or with regard to everything.
pub proof fn law_compared(a: &[u8], b: &[u8], same: bool, equal: bool)
    requires
        call_ensures(eq_ignore_case, (a, b), same),
        call_ensures(eq_bytes, (a, b), equal),
    ensures
        same <==> same_letters(a@, b@),
        equal <==> a@ == b@,
        equal ==> same,
{
    if same {
        assert(same_letters(a@, b@));
    }
    if same_letters(a@, b@) {
        assert(same_but_case(a@, b@));
    }
}

/// A text that bytes hold is found wherever it stands in them, without regard to the case of ASCII
/// letters.
pub proof fn law_found(bytes: &[u8], text: &[u8], found: bool)
    requires
        call_ensures(contains_ignore_case, (bytes, text), found),
    ensures
        found <==> exists|before: Seq<u8>, middle: Seq<u8>, after: Seq<u8>|
            #![trigger before + middle + after]
            bytes@ == before + middle + after && same_letters(middle, text@),
{
    if found {
        let i = choose|i: int|
            0 <= i && i + text@.len() <= bytes@.len() && same_but_case(
                #[trigger] bytes@.subrange(i, i + text@.len()),
                text@,
            );
        let before = bytes@.take(i);
        let middle = bytes@.subrange(i, i + text@.len());
        let after = bytes@.skip(i + text@.len());
        assert(bytes@ =~= before + middle + after);
        assert(same_letters(middle, text@));
    }
    if exists|before: Seq<u8>, middle: Seq<u8>, after: Seq<u8>|
        #![trigger before + middle + after]
        bytes@ == before + middle + after && same_letters(middle, text@) {
        let (before, middle, after) = choose|before: Seq<u8>, middle: Seq<u8>, after: Seq<u8>|
            #![trigger before + middle + after]
            bytes@ == before + middle + after && same_letters(middle, text@);
        let i = before.len() as int;
        assert(bytes@.subrange(i, i + text@.len()) =~= middle);
        assert(same_but_case(bytes@.subrange(i, i + text@.len()), text@));
    }
}

/// Whether the bytes hold neither a space nor a comma.
pub open spec fn unbroken(bytes: Seq<u8>) -> bool {
    forall|i: int| 0 <= i < bytes.len() ==> #[trigger] bytes[i] != 32 && bytes[i] != 44
}

/// An item of a list is found: it stands between spaces, commas and the ends of the list.
pub proof fn law_item_found(bytes: &[u8], expected: &[u8], found: bool)
    requires
        call_ensures(any_item, (bytes, expected), found),
    ensures
        found <==> exists|i: int, j: int|
            {
                &&& 0 <= i <= j <= bytes@.len()
                &&& i == 0 || bytes@[i - 1] == 32 || bytes@[i - 1] == 44
                &&& j == bytes@.len() || bytes@[j] == 32 || bytes@[j] == 44
                &&& unbroken(#[trigger] bytes@.subrange(i, j))
                &&& same_letters(bytes@.subrange(i, j), expected@)
            },
{
    if found {
        let (i, j) = choose|i: int, j: int| #[trigger]
            item_at(bytes@, i, j) && same_but_case(
                bytes@.subrange(i, j),
                expected@,
            );
        let part = bytes@.subrange(i, j);
        assert(unbroken(part)) by {
            assert forall|k: int| 0 <= k < part.len() implies #[trigger] part[k] != 32 && part[k]
                != 44 by {
                assert(!separator(bytes@[i + k]));
            }
        }
        assert(same_letters(part, expected@));
    }
    if exists|i: int, j: int|
        {
            &&& 0 <= i <= j <= bytes@.len()
            &&& i == 0 || bytes@[i - 1] == 32 || bytes@[i - 1] == 44
            &&& j == bytes@.len() || bytes@[j] == 32 || bytes@[j] == 44
            &&& unbroken(#[trigger] bytes@.subrange(i, j))
            &&& same_letters(bytes@.subrange(i, j), expected@)
        } {
        let (i, j) = choose|i: int, j: int|
            {
                &&& 0 <= i <= j <= bytes@.len()
                &&& i == 0 || bytes@[i - 1] == 32 || bytes@[i - 1] == 44
                &&& j == bytes@.len() || bytes@[j] == 32 || bytes@[j] == 44
                &&& unbroken(#[trigger] bytes@.subrange(i, j))
                &&& same_letters(bytes@.subrange(i, j), expected@)
            };
        let part = bytes@.subrange(i, j);
        assert forall|k: int| i <= k < j implies !separator(#[trigger] bytes@[k]) by {
            assert(part[k - i] == bytes@[k]);
        }
        assert(item_at(bytes@, i, j));
        assert(same_but_case(part, expected@));
    }
}

/// The answer to a key is the digest, in Base64, of the key and the text that every server appends
/// to it.
pub proof fn law_key_answered(key: &[u8], answer: String)
    requires
        call_ensures(accept_key, (key,), answer),
    ensures
        answer@ == base64_of(
            sha1_of(key@ + encode_utf8("258EAFA5-E914-47DA-95CA-C5AB0DC85B11"@)),
        ),
        answer@.len() == 28,
{
}

/// Whether a conversion came to the request for a target: a `GET` of HTTP/1.1 without fields.
pub open spec fn requests_target(uri: UriView, result: Result<Request, Error>) -> bool {
    result matches Ok(request) && request@.method == "GET"@ && request@.uri == uri
        && request@.version is Http11 && request@.fields.len() == 0
}

/// Whether a conversion came to the request for the target that text names, or was rejected because
/// it names none.
pub open spec fn requests_named(text: Seq<char>, result: Result<Request, Error>) -> bool {
    match uri_of(text) {
        Ok(uri) => requests_target(uri, result),
        Err(fault) => result matches Err(e) && e@ == http_fault(
            HttpErrorView::MalformattedUri(Some(fault)),
        ),
    }
}

/// Text, a target, a URL and a request can be asked for: each becomes the request for the target
/// that it names, and a request stays what it is.
pub proof fn law_asked_for(
    text: &str,
    string: String,
    uri: Uri,
    url: Url,
    request: Request,
    results: (
        Result<Request, Error>,
        Result<Request, Error>,
        Result<Request, Error>,
        Result<Request, Error>,
        Result<Request, Error>,
        Result<Request, Error>,
        Result<Request, Error>,
        Result<Request, Error>,
    ),
)
    requires
        call_ensures(<&str as TryIntoRequest>::try_into_request, (text,), results.0),
        call_ensures(<String as TryIntoRequest>::try_into_request, (string,), results.1),
        call_ensures(<&String as TryIntoRequest>::try_into_request, (&string,), results.2),
        call_ensures(<Uri as TryIntoRequest>::try_into_request, (uri,), results.3),
        call_ensures(<&Uri as TryIntoRequest>::try_into_request, (&uri,), results.4),
        call_ensures(<Url as TryIntoRequest>::try_into_request, (url,), results.5),
        call_ensures(<&Url as TryIntoRequest>::try_into_request, (&url,), results.6),
        call_ensures(<Request as TryIntoRequest>::try_into_request, (request,), results.7),
    ensures
        requests_named(text@, results.0),
        requests_named(string@, results.1),
        requests_named(string@, results.2),
        requests_target(uri@, results.3),
        requests_target(uri@, results.4),
        requests_named(url_text(url), results.5),
        requests_named(url_text(url), results.6),
        results.7 matches Ok(kept) && kept@ == request@,
{
}

/// The versions of HTTP have their names, and those before 1.1 are too low.
pub proof fn law_versions(version: &Version, text: &str, low: bool)
    requires
        call_ensures(Version::as_str, (version,), text),
        call_ensures(Version::is_too_low, (version,), low),
    ensures
        text@ == match *version {
            Version::Http09 => "HTTP/0.9"@,
            Version::Http10 => "HTTP/1.0"@,
            Version::Http11 => "HTTP/1.1"@,
            Version::Http2 => "HTTP/2.0"@,
            Version::Http3 => "HTTP/3.0"@,
        },
        low <==> *version is Http09 || *version is Http10,
{
}

} // verus!
