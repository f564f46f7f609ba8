//! The HTTP Upgrade handshake that opens a WebSocket (RFC 6455, section 1.3):
//! the client's challenge key, the request, and the checks on the server's
//! response.
use vstd::prelude::*;
use vstd::string::{StringExecFns, StringSliceAdditionalSpecFns};
use crate::external::{base64_encode, base64_text, sha1_digest, sha1_of_parts, unix_time_nanos};

verus! {

/// The GUID that RFC 6455 appends to the client key before hashing.
pub const WS_GUID: &'static str = "258EAFA5-E914-47DA-95CA-C5AB0DC85B11";

/// Byte `i` of the 16-byte nonce derived from a clock reading.
pub open spec fn clock_nonce_byte(nanos: u128, i: int) -> u8 {
    ((nanos >> ((i % 16) as u128)) ^ (nanos >> (((i + 7) % 16) as u128))) as u8
}

/// The 16-byte nonce derived from a clock reading.
pub open spec fn clock_nonce(nanos: u128) -> Seq<u8> {
    Seq::new(16, |i: int| clock_nonce_byte(nanos, i))
}

/// The challenge key made from a clock reading: the base64 text of its nonce.
pub fn sec_key_from_clock(nanos: u128) -> (r: String)
    ensures
        r@ == base64_text(clock_nonce(nanos)),
{
    let mut nonce: Vec<u8> = Vec::new();
    let mut i: u128 = 0;
    while i < 16
        invariant
            i <= 16,
            nonce@ =~= clock_nonce(nanos).take(i as int),
        decreases 16 - i,
    {
        nonce.push(((nanos >> (i % 16)) ^ (nanos >> ((i + 7) % 16))) as u8);
        i = i + 1;
    }
    assert(nonce@ =~= clock_nonce(nanos));
    base64_encode(nonce.as_slice())
}

/// A fresh `Sec-WebSocket-Key` value: the base64 text of a 16-byte nonce
/// drawn from the system clock.
pub fn generate_sec_key() -> (r: String)
    ensures
        exists|n: Seq<u8>| n.len() == 16 && r@ == base64_text(n),
{
    sec_key_from_clock(unix_time_nanos())
}

/// The accept value that the server owes for `key`: base64 of the SHA-1 of
/// the key's bytes followed by the GUID's.
pub open spec fn accept_key_of(key: Seq<u8>) -> Seq<char> {
    base64_text(sha1_digest(key + WS_GUID.spec_bytes()))
}

/// Computes the `Sec-WebSocket-Accept` value expected for `sec_key`.
pub fn compute_accept_key(sec_key: &str) -> (r: String)
    ensures
        r@ == accept_key_of(sec_key.spec_bytes()),
{
    let digest = sha1_of_parts(sec_key.as_bytes(), WS_GUID.as_bytes());
    base64_encode(digest.as_slice())
}

/// The upgrade request for `path` on `host`, carrying the challenge key.
pub open spec fn handshake_request(host: Seq<char>, path: Seq<char>, sec_key: Seq<char>) -> Seq<char> {
    "GET "@ + path + " HTTP/1.1\r\nHost: "@ + host
        + "\r\nUpgrade: websocket\r\nConnection: Upgrade\r\nSec-WebSocket-Key: "@ + sec_key
        + "\r\nSec-WebSocket-Version: 13\r\n\r\n"@
}

/// Builds the HTTP/1.1 upgrade request.
pub fn build_handshake_request(host: &str, path: &str, sec_key: &str) -> (r: String)
    ensures
        r@ == handshake_request(host@, path@, sec_key@),
{
    let mut req = String::from_str("GET ");
    req.append(path);
    req.append(" HTTP/1.1\r\nHost: ");
    req.append(host);
    req.append("\r\nUpgrade: websocket\r\nConnection: Upgrade\r\nSec-WebSocket-Key: ");
    req.append(sec_key);
    req.append("\r\nSec-WebSocket-Version: 13\r\n\r\n");
    req
}


/// Why a server's upgrade response was refused.
#[derive(Debug, Clone, Copy, PartialEq, Eq, Structural)]
pub enum UpgradeError {
    /// The status line is not `HTTP/1.1 101`.
    NotSwitchingProtocols,
    /// No `Upgrade: websocket` header.
    MissingUpgradeHeader,
    /// No `Connection: Upgrade` header.
    MissingConnectionHeader,
    /// No `Sec-WebSocket-Accept` header.
    MissingAcceptHeader,
    /// The accept value is not the one owed for the key.
    AcceptMismatch,
}

/// The start of the status line of a protocol switch.
pub const SWITCHING_STATUS: &'static str = "HTTP/1.1 101";

/// The upgrade header, lower case.
pub const UPGRADE_HEADER: &'static str = "upgrade: websocket";

/// The connection header, lower case.
pub const CONNECTION_HEADER: &'static str = "connection: upgrade";

/// The name of the accept header with its colon, lower case.
pub const ACCEPT_HEADER: &'static str = "sec-websocket-accept:";

/// An ASCII byte in lower case.
pub open spec fn ascii_lower(b: u8) -> u8 {
    if 65 <= b <= 90 {
        (b + 32) as u8
    } else {
        b
    }
}

/// Whitespace that trimming removes from a header value.
pub open spec fn is_space(b: u8) -> bool {
    b == 0x20 || b == 0x09 || b == 0x0A || b == 0x0B || b == 0x0C || b == 0x0D
}

/// Whether `r` starts with `pat`.
pub open spec fn starts_with(r: Seq<u8>, pat: Seq<u8>) -> bool {
    pat.len() <= r.len() && r.take(pat.len() as int) == pat
}

/// Whether the lower-case pattern `pat` stands at `i` in `r`, ignoring ASCII
/// case.
pub open spec fn matches_at(r: Seq<u8>, i: int, pat: Seq<u8>) -> bool {
    &&& 0 <= i
    &&& i + pat.len() <= r.len()
    &&& forall|j: int| 0 <= j < pat.len() ==> ascii_lower(#[trigger] r[i + j]) == pat[j]
}

/// Whether the lower-case pattern `pat` occurs in `r`, ignoring ASCII case.
pub open spec fn contains_pattern(r: Seq<u8>, pat: Seq<u8>) -> bool {
    exists|i: int| #[trigger] matches_at(r, i, pat)
}

/// Whether a line of `r` starts at `i` with the accept header's name.
pub open spec fn accept_line_at(r: Seq<u8>, i: int) -> bool {
    &&& i == 0 || r[i - 1] == 0x0A
    &&& matches_at(r, i, ACCEPT_HEADER.spec_bytes())
}

/// The first position from `k` on where an accept line starts.
pub open spec fn first_accept_line(r: Seq<u8>, k: int) -> Option<int>
    decreases r.len() - k,
{
    if k < 0 || k >= r.len() {
        None
    } else if accept_line_at(r, k) {
        Some(k)
    } else {
        first_accept_line(r, k + 1)
    }
}

/// The end of the line that holds position `k`: the next line feed, or the
/// end of `r`.
pub open spec fn line_end(r: Seq<u8>, k: int) -> int
    decreases r.len() - k,
{
    if k < 0 || k >= r.len() || r[k] == 0x0A {
        k
    } else {
        line_end(r, k + 1)
    }
}

/// The first position from `k` on, before `end`, that is not whitespace.
pub open spec fn skip_space(r: Seq<u8>, k: int, end: int) -> int
    decreases end - k,
{
    if k < end && is_space(r[k]) {
        skip_space(r, k + 1, end)
    } else {
        k
    }
}

/// The end of `r[start..end]` without its trailing whitespace.
pub open spec fn trim_end(r: Seq<u8>, start: int, end: int) -> int
    decreases end - start,
{
    if start < end && is_space(r[end - 1]) {
        trim_end(r, start, end - 1)
    } else {
        end
    }
}

/// The value of the first accept header of `r`, trimmed.
pub open spec fn accept_value(r: Seq<u8>) -> Option<Seq<u8>> {
    match first_accept_line(r, 0) {
        None => None,
        Some(i) => {
            let from = i + ACCEPT_HEADER.spec_bytes().len();
            let end = line_end(r, from);
            let start = skip_space(r, from, end);
            Some(r.subrange(start, trim_end(r, start, end)))
        },
    }
}

/// The verdict on a response `r` to the challenge key `key`: a protocol
/// switch, both upgrade headers (ignoring ASCII case), and the accept value
/// owed for the key.
pub open spec fn upgrade_verdict(r: Seq<u8>, key: Seq<u8>) -> Result<(), UpgradeError> {
    if !starts_with(r, SWITCHING_STATUS.spec_bytes()) {
        Err(UpgradeError::NotSwitchingProtocols)
    } else if !contains_pattern(r, UPGRADE_HEADER.spec_bytes()) {
        Err(UpgradeError::MissingUpgradeHeader)
    } else if !contains_pattern(r, CONNECTION_HEADER.spec_bytes()) {
        Err(UpgradeError::MissingConnectionHeader)
    } else {
        match accept_value(r) {
            None => Err(UpgradeError::MissingAcceptHeader),
            Some(v) => if v == vstd::utf8::encode_utf8(accept_key_of(key)) {
                Ok(())
            } else {
                Err(UpgradeError::AcceptMismatch)
            },
        }
    }
}

/// A response without the `Connection: Upgrade` header is refused, whatever
/// its status line and accept value.
pub proof fn lemma_connection_header_required(r: Seq<u8>, key: Seq<u8>)
    requires
        !contains_pattern(r, CONNECTION_HEADER.spec_bytes()),
    ensures
        upgrade_verdict(r, key) is Err,
{
}

fn lower_byte(b: u8) -> (r: u8)
    ensures
        r == ascii_lower(b),
{
    if 65 <= b && b <= 90 {
        b + 32
    } else {
        b
    }
}

fn space_byte(b: u8) -> (r: bool)
    ensures
        r == is_space(b),
{
    b == 0x20 || b == 0x09 || b == 0x0A || b == 0x0B || b == 0x0C || b == 0x0D
}

fn bytes_equal(a: &[u8], b: &[u8]) -> (r: bool)
    ensures
        r == (a@ == b@),
{
    if a.len() != b.len() {
        return false;
    }
    let mut i: usize = 0;
    while i < a.len()
        invariant
            i <= a@.len() == b@.len(),
            a@.take(i as int) == b@.take(i as int),
        decreases a@.len() - i,
    {
        if a[i] != b[i] {
            assert(a@[i as int] != b@[i as int]);
            return false;
        }
        assert(a@.take(i + 1) =~= a@.take(i as int).push(a@[i as int]));
        assert(b@.take(i + 1) =~= b@.take(i as int).push(b@[i as int]));
        i = i + 1;
    }
    assert(a@ =~= a@.take(i as int));
    assert(b@ =~= b@.take(i as int));
    true
}

fn has_prefix(r: &[u8], pat: &[u8]) -> (res: bool)
    ensures
        res == starts_with(r@, pat@),
{
    if pat.len() > r.len() {
        return false;
    }
    let mut i: usize = 0;
    while i < pat.len()
        invariant
            pat@.len() <= r@.len(),
            i <= pat@.len(),
            forall|j: int| 0 <= j < i ==> r@[j] == pat@[j],
        decreases pat@.len() - i,
    {
        if r[i] != pat[i] {
            assert(r@.take(pat@.len() as int)[i as int] != pat@[i as int]);
            return false;
        }
        i = i + 1;
    }
    assert(r@.take(pat@.len() as int) =~= pat@);
    true
}

fn matches_pattern_at(r: &[u8], i: usize, pat: &[u8]) -> (res: bool)
    ensures
        res == matches_at(r@, i as int, pat@),
{
    let rlen = r.len();
    if pat.len() > rlen || i > rlen - pat.len() {
        return false;
    }
    let mut j: usize = 0;
    while j < pat.len()
        invariant
            i + pat@.len() <= rlen == r@.len(),
            j <= pat@.len(),
            forall|t: int| 0 <= t < j ==> ascii_lower(#[trigger] r@[i + t]) == pat@[t],
        decreases pat@.len() - j,
    {
        if lower_byte(r[i + j]) != pat[j] {
            return false;
        }
        j = j + 1;
    }
    true
}

fn contains_ignoring_case(r: &[u8], pat: &[u8]) -> (res: bool)
    ensures
        res == contains_pattern(r@, pat@),
{
    if pat.len() > r.len() {
        return false;
    }
    let last = r.len() - pat.len();
    let mut i: usize = 0;
    while i < last
        invariant
            i <= last == r@.len() - pat@.len(),
            forall|t: int| 0 <= t < i ==> !matches_at(r@, t, pat@),
        decreases last - i,
    {
        if matches_pattern_at(r, i, pat) {
            return true;
        }
        i = i + 1;
    }
    if matches_pattern_at(r, last, pat) {
        return true;
    }
    assert forall|t: int| !matches_at(r@, t, pat@) by {
        if 0 <= t < i {
        } else if t == last {
        } else {
        }
    }
    false
}

fn find_accept_line(r: &[u8]) -> (res: Option<usize>)
    ensures
        match res {
            Some(i) => first_accept_line(r@, 0) == Some(i as int) && matches_at(
                r@,
                i as int,
                ACCEPT_HEADER.spec_bytes(),
            ),
            None => first_accept_line(r@, 0) is None,
        },
{
    let name = ACCEPT_HEADER.as_bytes();
    let mut k: usize = 0;
    while k < r.len()
        invariant
            k <= r@.len(),
            name@ == ACCEPT_HEADER.spec_bytes(),
            first_accept_line(r@, k as int) == first_accept_line(r@, 0),
        decreases r@.len() - k,
    {
        let at_line_start = k == 0 || r[k - 1] == 0x0A;
        if at_line_start && matches_pattern_at(r, k, name) {
            return Some(k);
        }
        k = k + 1;
    }
    None
}

fn find_line_end(r: &[u8], from: usize) -> (res: usize)
    requires
        from <= r@.len(),
    ensures
        res == line_end(r@, from as int),
        from <= res <= r@.len(),
{
    let mut k: usize = from;
    while k < r.len() && r[k] != 0x0A
        invariant
            from <= k <= r@.len(),
            line_end(r@, k as int) == line_end(r@, from as int),
        decreases r@.len() - k,
    {
        k = k + 1;
    }
    k
}

/// Checks the server's response to the upgrade request sent with `sec_key`.
pub fn validate_handshake_response(response: &str, sec_key: &str) -> (res: Result<(), UpgradeError>)
    ensures
        res == upgrade_verdict(response.spec_bytes(), sec_key.spec_bytes()),
{
    let r = response.as_bytes();
    if !has_prefix(r, SWITCHING_STATUS.as_bytes()) {
        return Err(UpgradeError::NotSwitchingProtocols);
    }
    if !contains_ignoring_case(r, UPGRADE_HEADER.as_bytes()) {
        return Err(UpgradeError::MissingUpgradeHeader);
    }
    if !contains_ignoring_case(r, CONNECTION_HEADER.as_bytes()) {
        return Err(UpgradeError::MissingConnectionHeader);
    }
    let line = match find_accept_line(r) {
        Some(i) => i,
        None => return Err(UpgradeError::MissingAcceptHeader),
    };
    let rlen = r.len();
    let name_len = ACCEPT_HEADER.as_bytes().len();
    assert(line + name_len <= rlen);
    let from = line + name_len;
    let end = find_line_end(r, from);
    let mut start = from;
    while start < end && space_byte(r[start])
        invariant
            from <= start <= end <= r@.len(),
            skip_space(r@, start as int, end as int) == skip_space(r@, from as int, end as int),
        decreases end - start,
    {
        start = start + 1;
    }
    let mut stop = end;
    while start < stop && space_byte(r[stop - 1])
        invariant
            start <= stop <= end <= r@.len(),
            trim_end(r@, start as int, stop as int) == trim_end(r@, start as int, end as int),
        decreases stop - start,
    {
        stop = stop - 1;
    }
    let expected = compute_accept_key(sec_key);
    let value = vstd::slice::slice_subrange(r, start, stop);
    if bytes_equal(value, expected.as_str().as_bytes()) {
        Ok(())
    } else {
        Err(UpgradeError::AcceptMismatch)
    }
}

} // verus!
