//! Finding devices on the local network: the probe, what a reply says, and
//! when a scan is over.
use vstd::prelude::*;
use vstd::slice::slice_to_vec;
use vstd::string::*;
use vstd::utf8::*;
use crate::error::Error;
use crate::wire::{string_from_utf8, text_of_utf8};

verus! {

/// How many milliseconds a scan waits for one reply.
pub const SCAN_TIMEOUT_MS: u64 = 500;

/// After how many waits without a reply a scan is over.
pub const SCAN_ATTEMPTS: u8 = 10;

/// The byte that parts the fields of a reply.
pub const COMMA: u8 = 0x2C;

/// The bytes of the probe, `WING?`.
pub open spec fn probe_wire() -> Seq<u8> {
    seq![0x57, 0x49, 0x4E, 0x47, 0x3F]
}

/// The first field of every reply, `WING`.
pub open spec fn reply_tag() -> Seq<u8> {
    seq![0x57, 0x49, 0x4E, 0x47]
}

/// The fields of a reply: a comma ends one field and begins the next, every
/// other byte belongs to the field it stands in. There is always at least
/// one field, and fields may be empty.
pub open spec fn fields(s: Seq<u8>) -> Seq<Seq<u8>>
    decreases s.len(),
{
    if s.len() == 0 {
        seq![Seq::empty()]
    } else {
        let before = fields(s.drop_last());
        if s.last() == COMMA {
            before.push(Seq::empty())
        } else {
            before.drop_last().push(before.last().push(s.last()))
        }
    }
}

/// What a device says of itself when it answers the probe.
#[derive(Debug)]
pub struct DiscoveryInfo {
    pub ip: String,
    pub name: String,
    pub model: String,
    pub serial: String,
    pub firmware: String,
}

/// A `DiscoveryInfo` as plain values.
pub struct DiscoveryInfoView {
    pub ip: Seq<char>,
    pub name: Seq<char>,
    pub model: Seq<char>,
    pub serial: Seq<char>,
    pub firmware: Seq<char>,
}

impl View for DiscoveryInfo {
    type V = DiscoveryInfoView;

    open spec fn view(&self) -> DiscoveryInfoView {
        DiscoveryInfoView {
            ip: self.ip@,
            name: self.name@,
            model: self.model@,
            serial: self.serial@,
            firmware: self.firmware@,
        }
    }
}

/// Whether a reply is one of a device: well-formed UTF-8, in six fields or
/// more, the first of them `WING`.
pub open spec fn is_reply(s: Seq<u8>) -> bool {
    &&& valid_utf8(s)
    &&& fields(s).len() >= 6
    &&& fields(s)[0] == reply_tag()
}

/// Between two character boundaries of well-formed UTF-8 lies well-formed
/// UTF-8.
proof fn lemma_valid_between(w: Seq<u8>, a: int, b: int)
    requires
        valid_utf8(w),
        0 <= a <= b <= w.len(),
        is_char_boundary(w, a),
        is_char_boundary(w, b),
    ensures
        valid_utf8(w.subrange(a, b)),
{
    valid_utf8_split(w, b);
    let p = w.subrange(0, b);
    if a == b {
        is_char_boundary_start_end_of_seq(p);
    } else if a > 0 {
        is_char_boundary_iff_not_is_continuation_byte(w, a);
        is_char_boundary_iff_not_is_continuation_byte(p, a);
        assert(p[a] == w[a]);
    }
    valid_utf8_split(p, a);
    assert(p.subrange(a, p.len() as int) =~= w.subrange(a, b));
}

/// A comma in well-formed UTF-8 stands between two character boundaries.
proof fn lemma_comma_boundaries(w: Seq<u8>, k: int)
    requires
        valid_utf8(w),
        0 <= k < w.len(),
        w[k] == COMMA,
    ensures
        is_char_boundary(w, k),
        is_char_boundary(w, k + 1),
{
    is_char_boundary_iff_not_is_continuation_byte(w, k);
    if k + 1 == w.len() {
        is_char_boundary_start_end_of_seq(w);
    } else {
        valid_utf8_split(w, k);
        let t = w.subrange(k, w.len() as int);
        assert(t[0] == COMMA);
        assert(t[1] == w[k + 1]);
        assert(is_char_boundary(t, 1)) by {
            reveal_with_fuel(is_char_boundary, 2);
            assert(length_of_first_scalar(t) == 1);
        }
        is_char_boundary_iff_not_is_continuation_byte(t, 1);
        is_char_boundary_iff_not_is_continuation_byte(w, k + 1);
    }
}

/// Of the first `k` bytes of well-formed UTF-8, every field but the last is
/// well-formed, and the last begins at a character boundary.
proof fn lemma_prefix_fields(w: Seq<u8>, k: int)
    requires
        valid_utf8(w),
        0 <= k <= w.len(),
    ensures
        ({
            let f = fields(w.take(k));
            let start = k - f.last().len();
            &&& f.len() >= 1
            &&& 0 <= start <= k
            &&& is_char_boundary(w, start)
            &&& f.last() == w.subrange(start, k)
            &&& forall|i: int| 0 <= i < f.len() - 1 ==> valid_utf8(#[trigger] f[i])
        }),
    decreases k,
{
    if k == 0 {
        assert(w.take(0) =~= Seq::<u8>::empty());
        assert(w.subrange(0, 0) =~= Seq::<u8>::empty());
    } else {
        lemma_prefix_fields(w, k - 1);
        let p = w.take(k);
        assert(p.drop_last() =~= w.take(k - 1));
        assert(p.last() == w[k - 1]);
        let before = fields(w.take(k - 1));
        let start = k - 1 - before.last().len();
        let f = fields(p);
        if w[k - 1] == COMMA {
            lemma_comma_boundaries(w, k - 1);
            lemma_valid_between(w, start, k - 1);
            assert(w.subrange(k, k) =~= Seq::<u8>::empty());
            assert forall|i: int| 0 <= i < f.len() - 1 implies valid_utf8(#[trigger] f[i]) by {
                assert(f[i] == before[i]);
            }
        } else {
            assert(before.last().push(w[k - 1]) =~= w.subrange(start, k));
            assert forall|i: int| 0 <= i < f.len() - 1 implies valid_utf8(#[trigger] f[i]) by {
                assert(f[i] == before[i]);
            }
        }
    }
}

/// Every field of well-formed UTF-8 is well-formed UTF-8: a comma is never
/// part of a longer character.
pub proof fn lemma_fields_valid(s: Seq<u8>)
    requires
        valid_utf8(s),
    ensures
        forall|i: int| 0 <= i < fields(s).len() ==> valid_utf8(#[trigger] fields(s)[i]),
{
    lemma_prefix_fields(s, s.len() as int);
    assert(s.take(s.len() as int) =~= s);
    is_char_boundary_start_end_of_seq(s);
    let f = fields(s);
    lemma_valid_between(s, s.len() - f.last().len(), s.len() as int);
}

/// What a reply of a device says: the fields after the first are its
/// address, name, model, serial number and firmware.
pub open spec fn reply_info(s: Seq<u8>) -> DiscoveryInfoView {
    DiscoveryInfoView {
        ip: decode_utf8(fields(s)[1]),
        name: decode_utf8(fields(s)[2]),
        model: decode_utf8(fields(s)[3]),
        serial: decode_utf8(fields(s)[4]),
        firmware: decode_utf8(fields(s)[5]),
    }
}

/// The bytes to broadcast to port 2222 to make the devices answer.
pub fn probe() -> (wire: Vec<u8>)
    ensures
        wire@ == probe_wire(),
{
    let mut wire: Vec<u8> = Vec::new();
    wire.push(0x57);
    wire.push(0x49);
    wire.push(0x4E);
    wire.push(0x47);
    wire.push(0x3F);
    assert(wire@ =~= probe_wire());
    wire
}

/// Cuts `s` into its fields.
pub fn split(s: &[u8]) -> (out: Vec<Vec<u8>>)
    ensures
        out@.len() == fields(s@).len(),
        forall|i: int| 0 <= i < out@.len() ==> (#[trigger] out@[i])@ == fields(s@)[i],
{
    let mut out: Vec<Vec<u8>> = Vec::new();
    let mut current: Vec<u8> = Vec::new();
    let mut k: usize = 0;
    assert(s@.take(0) =~= Seq::<u8>::empty());
    while k < s.len()
        invariant
            k <= s.len(),
            out@.len() + 1 == fields(s@.take(k as int)).len(),
            forall|i: int|
                0 <= i < out@.len() ==> (#[trigger] out@[i])@ == fields(s@.take(k as int))[i],
            current@ == fields(s@.take(k as int)).last(),
        decreases s.len() - k,
    {
        let byte = s[k];
        proof {
            let next = s@.take(k + 1);
            assert(next.drop_last() =~= s@.take(k as int));
            assert(next.last() == byte);
        }
        if byte == COMMA {
            out.push(current);
            current = Vec::new();
        } else {
            current.push(byte);
        }
        k = k + 1;
    }
    assert(s@.take(k as int) =~= s@);
    out.push(current);
    out
}

/// Whether `field` is `WING`.
fn is_tag(field: &Vec<u8>) -> (b: bool)
    ensures
        b == (field@ == reply_tag()),
{
    let b = field.len() == 4 && field[0] == 0x57 && field[1] == 0x49 && field[2] == 0x4E
        && field[3] == 0x47;
    assert(b == (field@ =~= reply_tag()));
    b
}

impl DiscoveryInfo {
    /// Reads the reply to a probe. `None` where it is not one of a device.
    pub fn parse(reply: &[u8]) -> (r: Option<DiscoveryInfo>)
        ensures
            r is Some <==> is_reply(reply@),
            r matches Some(info) ==> info@ == reply_info(reply@),
    {
        if string_from_utf8(slice_to_vec(reply)).is_none() {
            return None;
        }
        let mut tokens = split(reply);
        if tokens.len() < 6 || !is_tag(&tokens[0]) {
            return None;
        }
        proof {
            lemma_fields_valid(reply@);
        }
        let firmware = text_of_utf8(tokens.swap_remove(5));
        let serial = text_of_utf8(tokens.swap_remove(4));
        let model = text_of_utf8(tokens.swap_remove(3));
        let name = text_of_utf8(tokens.swap_remove(2));
        let ip = text_of_utf8(tokens.swap_remove(1));
        Some(DiscoveryInfo { ip, name, model, serial, firmware })
    }
}

/// What a scan found, for a caller that asks for the devices by number.
pub struct WingDiscoveryInfoHandle {
    info: Vec<DiscoveryInfo>,
}

impl View for WingDiscoveryInfoHandle {
    type V = Seq<DiscoveryInfoView>;

    closed spec fn view(&self) -> Seq<DiscoveryInfoView> {
        Seq::new(self.info@.len(), |i: int| self.info@[i]@)
    }
}

impl WingDiscoveryInfoHandle {
    /// The devices `info`, in their order.
    pub fn new(info: Vec<DiscoveryInfo>) -> (h: Self)
        ensures
            h@ == Seq::new(info@.len(), |i: int| info@[i]@),
    {
        WingDiscoveryInfoHandle { info }
    }

    /// How many devices there are.
    pub fn count(&self) -> (n: usize)
        ensures
            n == self@.len(),
    {
        self.info.len()
    }

    /// The device of the given number, counted from 0, if there is one.
    pub fn get(&self, index: usize) -> (d: Option<&DiscoveryInfo>)
        ensures
            d is Some <==> index < self@.len(),
            d matches Some(info) ==> info@ == self@[index as int],
    {
        if index < self.info.len() {
            Some(&self.info[index])
        } else {
            None
        }
    }
}

/// A scan for devices under way: what was found, and how often the wait for
/// a reply was in vain.
pub struct Scan {
    found: Vec<DiscoveryInfo>,
    attempts: u8,
    stop_on_first: bool,
}

/// A `Scan` as plain values.
pub struct ScanView {
    /// The devices found, in the order of their replies.
    pub found: Seq<DiscoveryInfoView>,
    /// How often the wait for a reply was in vain.
    pub attempts: u8,
    /// Whether one device is enough.
    pub stop_on_first: bool,
}

impl View for Scan {
    type V = ScanView;

    closed spec fn view(&self) -> ScanView {
        ScanView {
            found: Seq::new(self.found@.len(), |i: int| self.found@[i]@),
            attempts: self.attempts,
            stop_on_first: self.stop_on_first,
        }
    }
}

impl Scan {
    /// A scan that has found nothing and waited for nothing yet. The caller
    /// broadcasts the probe and waits for replies, `SCAN_TIMEOUT_MS` for
    /// each.
    pub fn new(stop_on_first: bool) -> (s: Self)
        ensures
            s@ == (ScanView { found: Seq::empty(), attempts: 0, stop_on_first }),
    {
        let s = Scan { found: Vec::new(), attempts: 0, stop_on_first };
        assert(s@.found =~= Seq::empty());
        s
    }

    /// Takes a datagram that came in, and says whether the scan goes on. A
    /// reply of a device is added to what was found, and ends the scan if
    /// one device is enough; anything else changes nothing.
    pub fn on_reply(&mut self, datagram: &[u8]) -> (more: bool)
        ensures
            final(self)@ == (ScanView {
                found: if is_reply(datagram@) {
                    old(self)@.found.push(reply_info(datagram@))
                } else {
                    old(self)@.found
                },
                ..old(self)@
            }),
            more == !(is_reply(datagram@) && old(self)@.stop_on_first),
    {
        match DiscoveryInfo::parse(datagram) {
            Some(info) => {
                self.found.push(info);
                assert(self@.found =~= old(self)@.found.push(reply_info(datagram@)));
                !self.stop_on_first
            },
            None => true,
        }
    }

    /// Takes note that no reply came in time, and says whether the scan
    /// goes on: it does until `SCAN_ATTEMPTS` waits were in vain.
    pub fn on_timeout(&mut self) -> (more: bool)
        ensures
            final(self)@ == (ScanView {
                attempts: if old(self)@.attempts < SCAN_ATTEMPTS {
                    (old(self)@.attempts + 1) as u8
                } else {
                    old(self)@.attempts
                },
                ..old(self)@
            }),
            more == (final(self)@.attempts < SCAN_ATTEMPTS),
    {
        if self.attempts < SCAN_ATTEMPTS {
            self.attempts = self.attempts + 1;
        }
        self.attempts < SCAN_ATTEMPTS
    }

    /// The devices that were found, in the order of their replies.
    pub fn results(self) -> (found: Vec<DiscoveryInfo>)
        ensures
            Seq::new(found@.len(), |i: int| found@[i]@) == self@.found,
    {
        self.found
    }
}

/// The host to connect to: the one that was asked for, else the first
/// device that a scan found. With neither there is `DiscoveryError`.
pub fn choose_host(host_or_ip: Option<&str>, devices: &Vec<DiscoveryInfo>) -> (r: Result<
    String,
    Error,
>)
    ensures
        match host_or_ip {
            Some(host) => r matches Ok(h) && h@ == host@,
            None => if devices@.len() > 0 {
                r matches Ok(h) && h@ == devices@[0].ip@
            } else {
                r matches Err(Error::DiscoveryError)
            },
        },
{
    match host_or_ip {
        Some(host) => Ok(String::from_str(host)),
        None => if devices.len() > 0 {
            Ok(devices[0].ip.clone())
        } else {
            Err(Error::DiscoveryError)
        },
    }
}

} // verus!
