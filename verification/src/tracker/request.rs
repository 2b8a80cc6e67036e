//! The announce request: a GET whose query carries the torrent's
//! info-hash, the client's peer id and port, and how far the download is.

use crate::digits::{lemma_nat_digits, nat_digits, push_decimal};
use crate::hexcode::hex_digit_byte;
use crate::text::{ascii_string, ascii_text, is_ascii_bytes};
use vstd::prelude::*;
use vstd::string::StringExecFns;

verus! {

/// What the client tells the tracker.
#[derive(Debug)]
pub struct TrackerRequest {
    pub info_hash: [u8; 20],
    pub peer_id: [u8; 20],
    pub port: u16,
    pub uploaded: u64,
    pub downloaded: u64,
    pub left: u64,
}

/// How long the tracker has to answer an announce, in seconds.
pub const ANNOUNCE_TIMEOUT_SECS: u64 = 30;

/// ASCII `%`.
pub const PERCENT: u8 = 37;

/// Each byte as `%` and two lower-case hexadecimal digits, in ASCII.
pub open spec fn percent_bytes(data: Seq<u8>) -> Seq<u8> {
    Seq::new(
        3 * data.len(),
        |i: int|
            if i % 3 == 0 {
                PERCENT
            } else if i % 3 == 1 {
                hex_digit_byte(data[i / 3] as int / 16)
            } else {
                hex_digit_byte(data[i / 3] as int % 16)
            },
    )
}

/// A number in decimal, as text.
pub open spec fn decimal_text(n: nat) -> Seq<char> {
    ascii_text(nat_digits(n))
}

/// The URL of an announce.
pub open spec fn announce_text(tracker_url: Seq<char>, request: TrackerRequest) -> Seq<char> {
    tracker_url + "?info_hash="@ + ascii_text(percent_bytes(request.info_hash@)) + "&peer_id="@
        + ascii_text(percent_bytes(request.peer_id@)) + "&port="@ + decimal_text(
        request.port as nat,
    ) + "&uploaded="@ + decimal_text(request.uploaded as nat) + "&downloaded="@ + decimal_text(
        request.downloaded as nat,
    ) + "&left="@ + decimal_text(request.left as nat) + "&compact=1"@
}

/// The lower-case hexadecimal digit of a number below 16.
fn hex_digit_of(n: u8) -> (r: u8)
    requires
        n < 16,
    ensures
        r == hex_digit_byte(n as int),
        r < 128,
{
    if n < 10 {
        48 + n
    } else {
        87 + n
    }
}

/// Percent-encodes every byte, whatever it is.
pub fn url_encode(data: &[u8]) -> (r: String)
    ensures
        r@ == ascii_text(percent_bytes(data@)),
{
    let mut out: Vec<u8> = Vec::new();
    let mut i: usize = 0;
    while i < data.len()
        invariant
            i <= data.len(),
            out.len() == 3 * i,
            forall|j: int| 0 <= j < 3 * i ==> (#[trigger] out[j]) == percent_bytes(data@)[j],
            is_ascii_bytes(out@),
        decreases data.len() - i,
    {
        let b = data[i];
        out.push(PERCENT);
        out.push(hex_digit_of(b / 16));
        out.push(hex_digit_of(b % 16));
        i = i + 1;
    }
    proof {
        assert(out@ =~= percent_bytes(data@));
    }
    ascii_string(out.as_slice())
}

/// A number in decimal, as text.
pub fn decimal_string(n: u64) -> (r: String)
    ensures
        r@ == decimal_text(n as nat),
{
    let mut out: Vec<u8> = Vec::new();
    push_decimal(&mut out, n);
    proof {
        lemma_nat_digits(n as nat);
        assert(out@ =~= nat_digits(n as nat));
    }
    ascii_string(out.as_slice())
}

/// The URL to GET for an announce to the tracker at `tracker_url`.
pub fn announce_url(tracker_url: &str, request: &TrackerRequest) -> (r: String)
    ensures
        r@ == announce_text(tracker_url@, *request),
{
    let mut url = String::from_str(tracker_url);
    url.append("?info_hash=");
    url.append(url_encode(request.info_hash.as_slice()).as_str());
    url.append("&peer_id=");
    url.append(url_encode(request.peer_id.as_slice()).as_str());
    url.append("&port=");
    url.append(decimal_string(request.port as u64).as_str());
    url.append("&uploaded=");
    url.append(decimal_string(request.uploaded).as_str());
    url.append("&downloaded=");
    url.append(decimal_string(request.downloaded).as_str());
    url.append("&left=");
    url.append(decimal_string(request.left).as_str());
    url.append("&compact=1");
    url
}

} // verus!
