//! The kernel's ICMP service: remote function calls carried in echo requests,
//! their payload obfuscated by a byte mask.  The network stack receives and
//! sends the packets; the decisions and the stored flags are here.
use vstd::prelude::*;
use vstd::std_specs::convert::FromSpecImpl;
use smoltcp::phy::ChecksumCapabilities;
use smoltcp::wire::{Icmpv4Packet, Icmpv4Repr};

verus! {

/// The byte every payload byte is masked with.
pub const MASK: u8 = 0xba;

/// The length of a flag.
pub const FLAG_LEN: usize = 11;

/// The administrator password, `::svm_kernel::repr_as_byte`.
pub open spec fn admn() -> Seq<u8> {
    seq![
        58u8, 58, 115, 118, 109, 95, 107, 101, 114, 110, 101, 108, 58, 58, 114, 101, 112, 114, 95,
        97, 115, 95, 98, 121, 116, 101,
    ]
}

/// The administrator password's bytes.
pub fn admn_bytes() -> (r: Vec<u8>)
    ensures
        r@ == admn(),
{
    let r: Vec<u8> = vec![
        58u8, 58, 115, 118, 109, 95, 107, 101, 114, 110, 101, 108, 58, 58, 114, 101, 112, 114, 95,
        97, 115, 95, 98, 121, 116, 101,
    ];
    assert(r@ =~= admn());
    r
}

/// The bytes masked (or unmasked: the mask undoes itself).
pub open spec fn masked(b: Seq<u8>) -> Seq<u8> {
    Seq::new(b.len(), |i: int| b[i] ^ MASK)
}

/// Masks the bytes; masking twice gives the bytes back.
pub fn crypt(data: &[u8]) -> (r: Vec<u8>)
    ensures
        r@ == masked(data@),
{
    let mut r: Vec<u8> = Vec::new();
    let mut i: usize = 0;
    while i < data.len()
        invariant
            i <= data@.len(),
            r@ == masked(data@).take(i as int),
        decreases data@.len() - i,
    {
        r.push(data[i] ^ MASK);
        i = i + 1;
        assert(r@ =~= masked(data@).take(i as int));
    }
    assert(r@ =~= masked(data@));
    r
}

/// Masking twice gives the bytes back.
pub proof fn lemma_mask_twice(b: Seq<u8>)
    ensures
        masked(masked(b)) == b,
{
    assert forall|i: int| 0 <= i < b.len() implies #[trigger] masked(masked(b))[i] == b[i] by {
        let x = b[i];
        assert((x ^ 0xbau8) ^ 0xbau8 == x) by (bit_vector);
    }
    assert(masked(masked(b)) =~= b);
}

/// The functions a request can call, by their number.
#[derive(Debug, Clone, Copy, PartialEq, Eq, Structural)]
pub enum RemoteFunction {
    Uknown(u8),
    AdmnCtrl,
    GetPassword,
    SetFlag,
    GetFlag,
}

/// The function a request number calls.
pub open spec fn remote_function(value: u8) -> RemoteFunction {
    if value == 1 {
        RemoteFunction::AdmnCtrl
    } else if value == 2 {
        RemoteFunction::GetPassword
    } else if value == 3 {
        RemoteFunction::SetFlag
    } else if value == 4 {
        RemoteFunction::GetFlag
    } else {
        RemoteFunction::Uknown(value)
    }
}

impl From<u8> for RemoteFunction {
    fn from(value: u8) -> (r: RemoteFunction) {
        if value == 1 {
            RemoteFunction::AdmnCtrl
        } else if value == 2 {
            RemoteFunction::GetPassword
        } else if value == 3 {
            RemoteFunction::SetFlag
        } else if value == 4 {
            RemoteFunction::GetFlag
        } else {
            RemoteFunction::Uknown(value)
        }
    }
}

impl FromSpecImpl<u8> for RemoteFunction {
    open spec fn obeys_from_spec() -> bool {
        true
    }

    open spec fn from_spec(value: u8) -> RemoteFunction {
        remote_function(value)
    }
}

/// What the server does with a request.
#[derive(Debug, PartialEq, Eq)]
pub enum ServerAction {
    /// The request carries no function number.
    NoPayload,
    /// The function number is unknown.
    UnknownFunction(u8),
    /// A flag to store does not have the flag length; its length.
    BadFlagLength(usize),
    /// Nothing to answer.
    NoReply,
    /// Answer with these bytes (before masking).
    Reply(Vec<u8>),
}

/// The flags stored so far.
pub struct FlagStore {
    flags: Vec<[u8; FLAG_LEN]>,
}

/// The answer to a request whose unmasked data is `d`, with `flags` stored:
/// the function is the first byte, its argument the rest.  The administrator
/// control answers the last flag when the argument is the password; the password
/// request answers the password; storing a flag answers the flag.
pub open spec fn answer(d: Seq<u8>, flags: Seq<Seq<u8>>) -> Option<Seq<u8>> {
    let arg = d.skip(1);
    match remote_function(d[0]) {
        RemoteFunction::AdmnCtrl => if arg == admn() {
            Some(flags.last())
        } else {
            None
        },
        RemoteFunction::GetPassword => Some(admn()),
        RemoteFunction::SetFlag => if arg.len() == FLAG_LEN {
            Some(arg)
        } else {
            None
        },
        _ => None,
    }
}

impl FlagStore {
    /// The flags stored, oldest first.
    pub closed spec fn flags(&self) -> Seq<Seq<u8>> {
        Seq::new(self.flags@.len(), |i: int| self.flags@[i]@)
    }

    /// No flag stored.
    pub fn new() -> (r: FlagStore)
        ensures
            r.flags().len() == 0,
    {
        FlagStore { flags: Vec::new() }
    }

    /// The number of flags stored.
    pub fn len(&self) -> (r: usize)
        ensures
            r == self.flags().len(),
    {
        self.flags.len()
    }

    /// Stores `arg` as a flag when it has the flag length and answers it; else the
    /// store is left as it was and its length comes back.
    pub fn add_flag(&mut self, arg: &[u8]) -> (r: Result<Vec<u8>, usize>)
        ensures
            arg@.len() != FLAG_LEN ==> r == Err::<Vec<u8>, usize>(arg@.len() as usize)
                && final(self).flags() == old(self).flags(),
            arg@.len() == FLAG_LEN ==> (r matches Ok(v) && v@ == arg@) && final(self).flags()
                == old(self).flags().push(arg@),
    {
        if arg.len() != FLAG_LEN {
            return Err(arg.len());
        }
        let mut flag = [0u8; FLAG_LEN];
        let mut i: usize = 0;
        while i < FLAG_LEN
            invariant
                arg@.len() == FLAG_LEN,
                i <= FLAG_LEN,
                flag@.len() == FLAG_LEN,
                forall|j: int| 0 <= j < i ==> flag@[j] == arg@[j],
            decreases FLAG_LEN - i,
        {
            flag[i] = arg[i];
            i = i + 1;
        }
        assert(flag@ =~= arg@);
        self.flags.push(flag);
        assert(self.flags() =~= old(self).flags().push(arg@));
        let mut v: Vec<u8> = Vec::new();
        let mut k: usize = 0;
        while k < FLAG_LEN
            invariant
                k <= FLAG_LEN,
                flag@ == arg@,
                flag@.len() == FLAG_LEN,
                v@ == arg@.take(k as int),
            decreases FLAG_LEN - k,
        {
            v.push(flag[k]);
            k = k + 1;
            assert(v@ =~= arg@.take(k as int));
        }
        assert(v@ =~= arg@);
        Ok(v)
    }

    /// The last flag stored.
    pub fn last_flag(&self) -> (r: Vec<u8>)
        requires
            self.flags().len() > 0,
        ensures
            r@ == self.flags().last(),
    {
        let last = self.flags[self.flags.len() - 1];
        let mut v: Vec<u8> = Vec::new();
        let mut k: usize = 0;
        while k < FLAG_LEN
            invariant
                k <= FLAG_LEN,
                last@.len() == FLAG_LEN,
                v@ == last@.take(k as int),
            decreases FLAG_LEN - k,
        {
            v.push(last[k]);
            k = k + 1;
            assert(v@ =~= last@.take(k as int));
        }
        assert(v@ =~= last@);
        v
    }

    /// Handles a request whose unmasked data (behind the ICMP header) is `data`:
    /// the first byte picks the function, the rest is its argument.
    pub fn handle(&mut self, data: &[u8]) -> (r: ServerAction)
        requires
            data@.len() >= 1 && remote_function(data@[0]) == RemoteFunction::AdmnCtrl && data@.skip(1)
                == admn() ==> old(self).flags().len() > 0,
        ensures
            data@.len() == 0 ==> r == ServerAction::NoPayload && final(self).flags() == old(self).flags(),
            data@.len() >= 1 ==> {
                let f = remote_function(data@[0]);
                let arg = data@.skip(1);
                &&& f is Uknown ==> r == ServerAction::UnknownFunction(data@[0])
                &&& f is SetFlag && arg.len() != FLAG_LEN ==> r == ServerAction::BadFlagLength(
                    arg.len() as usize,
                )
                &&& f is SetFlag && arg.len() == FLAG_LEN ==> final(self).flags() == old(
                    self,
                ).flags().push(arg)
                &&& !(f is SetFlag && arg.len() == FLAG_LEN) ==> final(self).flags() == old(
                    self,
                ).flags()
                &&& !(f is Uknown) && !(f is SetFlag && arg.len() != FLAG_LEN) ==> match answer(
                    data@,
                    old(self).flags(),
                ) {
                    Some(a) => r matches ServerAction::Reply(v) && v@ == a,
                    None => r == ServerAction::NoReply,
                }
            },
    {
        if data.len() < 1 {
            return ServerAction::NoPayload;
        }
        let arg = tail(data);
        match RemoteFunction::from(data[0]) {
            RemoteFunction::Uknown(id) => ServerAction::UnknownFunction(id),
            RemoteFunction::AdmnCtrl => {
                let pw = admn_bytes();
                if bytes_eq(arg.as_slice(), pw.as_slice()) {
                    ServerAction::Reply(self.last_flag())
                } else {
                    ServerAction::NoReply
                }
            },
            RemoteFunction::GetPassword => ServerAction::Reply(admn_bytes()),
            RemoteFunction::SetFlag => match self.add_flag(arg.as_slice()) {
                Ok(v) => ServerAction::Reply(v),
                Err(len) => ServerAction::BadFlagLength(len),
            },
            RemoteFunction::GetFlag => ServerAction::NoReply,
        }
    }
}

/// The bytes behind the first.
fn tail(data: &[u8]) -> (r: Vec<u8>)
    requires
        data@.len() >= 1,
    ensures
        r@ == data@.skip(1),
{
    let mut r: Vec<u8> = Vec::new();
    let mut i: usize = 1;
    while i < data.len()
        invariant
            1 <= i <= data@.len(),
            r@ == data@.subrange(1, i as int),
        decreases data@.len() - i,
    {
        r.push(data[i]);
        i = i + 1;
        assert(r@ =~= data@.subrange(1, i as int));
    }
    assert(r@ =~= data@.skip(1));
    r
}

/// Whether the two byte strings are equal.
fn bytes_eq(a: &[u8], b: &[u8]) -> (r: bool)
    ensures
        r == (a@ == b@),
{
    if a.len() != b.len() {
        return false;
    }
    let mut i: usize = 0;
    while i < a.len()
        invariant
            a@.len() == b@.len(),
            i <= a@.len(),
            forall|j: int| 0 <= j < i ==> a@[j] == b@[j],
        decreases a@.len() - i,
    {
        if a[i] != b[i] {
            return false;
        }
        i = i + 1;
    }
    assert(a@ =~= b@);
    true
}

/// How long the server waits before it polls the interface again: the delay the
/// sockets ask for, and at least one millisecond.
pub fn poll_timeout(delay: Option<u64>) -> (r: u64)
    ensures
        r == match delay {
            Some(d) => if d == 0 {
                1
            } else {
                d
            },
            None => 1,
        },
{
    let timeout = match delay {
        Some(d) => d,
        None => 0,
    };
    if timeout == 0 {
        1
    } else {
        timeout
    }
}

/// How long the DHCP client may wait for an address, in milliseconds.
pub const DHCP_TIMEOUT_MS: u64 = 120000;

/// Whether the DHCP client has waited too long at `millis` milliseconds.
pub fn dhcp_timed_out(millis: u64) -> (r: bool)
    ensures
        r == (millis > DHCP_TIMEOUT_MS),
{
    millis > DHCP_TIMEOUT_MS
}

/// The request that stores `flag`: function 3, then the flag.
pub open spec fn set_flag_request(flag: Seq<u8>) -> Seq<u8> {
    seq![3u8] + flag
}

/// The administrator control request with the password: function 1, then the
/// password.
pub open spec fn admn_request() -> Seq<u8> {
    seq![1u8] + admn()
}

/// A flag that was stored is what the administrator control answers next, and
/// storing it answers the flag itself.
pub proof fn lemma_stored_flag_answered(flags: Seq<Seq<u8>>, flag: Seq<u8>)
    requires
        flag.len() == FLAG_LEN,
    ensures
        answer(set_flag_request(flag), flags) == Some(flag),
        answer(admn_request(), flags.push(flag)) == Some(flag),
{
    assert(set_flag_request(flag).skip(1) =~= flag);
    assert(admn_request().skip(1) =~= admn());
}

/// The administrator control reveals no flag without the password.
pub proof fn lemma_no_flag_without_password(d: Seq<u8>, flags: Seq<Seq<u8>>)
    requires
        d.len() >= 1,
        d[0] == 1,
        d.skip(1) != admn(),
    ensures
        answer(d, flags) is None,
{
}

/// The length of the header of an ICMPv4 packet (smoltcp's
/// `Icmpv4Packet::header_len`): eight bytes for every message type.  It reads the
/// type byte, so the packet must not be empty.
#[verifier::external_body]
fn echo_header_len(packet: &[u8]) -> (r: usize)
    requires
        packet@.len() >= 1,
    ensures
        r == 8,
{
    Icmpv4Packet::new_unchecked(packet).header_len()
}

/// The big-endian 16-bit number at `off`.
pub open spec fn be_u16(b: Seq<u8>, off: int) -> int {
    0x100 * b[off] + b[off + 1]
}

/// The identifier of an echo packet (smoltcp's `Icmpv4Packet::echo_ident`):
/// bytes 4 and 5, big-endian.
#[verifier::external_body]
fn echo_ident_of(packet: &[u8]) -> (r: u16)
    requires
        packet@.len() >= 8,
    ensures
        r == be_u16(packet@, 4),
{
    Icmpv4Packet::new_unchecked(packet).echo_ident()
}

/// The sequence number of an echo packet (smoltcp's
/// `Icmpv4Packet::echo_seq_no`): bytes 6 and 7, big-endian.
#[verifier::external_body]
fn echo_seq_no_of(packet: &[u8]) -> (r: u16)
    requires
        packet@.len() >= 8,
    ensures
        r == be_u16(packet@, 6),
{
    Icmpv4Packet::new_unchecked(packet).echo_seq_no()
}

/// The message code of an ICMP packet (smoltcp's `Icmpv4Packet::msg_code`):
/// byte 1.
#[verifier::external_body]
fn echo_code_of(packet: &[u8]) -> (r: u8)
    requires
        packet@.len() >= 8,
    ensures
        r == packet@[1],
{
    Icmpv4Packet::new_unchecked(packet).msg_code()
}

/// Sets the message code of an ICMP packet (`Icmpv4Packet::set_msg_code`):
/// byte 1 becomes `code`, the other bytes are kept.
#[verifier::external_body]
fn set_echo_code(packet: &mut Vec<u8>, code: u8)
    requires
        old(packet)@.len() >= 8,
    ensures
        final(packet)@ == old(packet)@.update(1, code),
{
    Icmpv4Packet::new_unchecked(&mut packet[..]).set_msg_code(code)
}

/// Fills in the checksum of an ICMP packet (`Icmpv4Packet::fill_checksum`):
/// bytes 2 and 3 become, big-endian, the internet checksum of the packet with
/// those bytes zero; the other bytes are kept.  smoltcp sums the words in a
/// 32-bit accumulator, so the packet stays below 64 KiB.
#[verifier::external_body]
fn fill_echo_checksum(packet: &mut Vec<u8>)
    requires
        8 <= old(packet)@.len() <= 0xffff,
    ensures
        final(packet)@.len() == old(packet)@.len(),
        forall|k: int| 0 <= k < old(packet)@.len() && k != 2 && k != 3 ==> #[trigger] final(packet)@[k] == old(packet)@[k],
        be_u16(final(packet)@, 2) == internet_checksum(old(packet)@.update(2, 0u8).update(3, 0u8)),
{
    Icmpv4Packet::new_unchecked(&mut packet[..]).fill_checksum()
}

/// The sum of the bytes taken as big-endian 16-bit words, an odd last byte as
/// the high byte of a word.
pub open spec fn be_word_sum(b: Seq<u8>) -> int
    decreases b.len(),
{
    if b.len() == 0 {
        0
    } else if b.len() == 1 {
        0x100 * b[0]
    } else {
        0x100 * b[0] + b[1] + be_word_sum(b.skip(2))
    }
}

/// A 32-bit sum with its carries folded back twice into 16 bits.
pub open spec fn fold_carries(w: int) -> int {
    let s = w / 0x1_0000 + w % 0x1_0000;
    s / 0x1_0000 + s % 0x1_0000
}

/// The internet checksum of `b`: the complement of its folded word sum.
pub open spec fn internet_checksum(b: Seq<u8>) -> int {
    0xffff - fold_carries(be_word_sum(b))
}

/// Emits an echo reply (smoltcp's `Icmpv4Repr::EchoReply` emitted with the
/// default checksum capabilities, which fill in the checksum) into a buffer of
/// the length the representation asks for: type and code zero, the checksum
/// (the internet checksum of the packet with its checksum bytes zero), the
/// identifier and sequence number big-endian, then the data.  smoltcp sums the
/// words in a 32-bit accumulator, so the data stays below 64 KiB.
#[verifier::external_body]
fn emit_echo_reply(ident: u16, seq_no: u16, data: &[u8]) -> (r: Vec<u8>)
    requires
        data@.len() <= 0xffff - 8,
    ensures
        be_u16(r@, 2) == internet_checksum(r@.update(2, 0u8).update(3, 0u8)),
        r@.len() == 8 + data@.len(),
        r@[0] == 0,
        r@[1] == 0,
        be_u16(r@, 4) == ident,
        be_u16(r@, 6) == seq_no,
        r@.skip(8) == data@,
{
    let repr = Icmpv4Repr::EchoReply { ident, seq_no, data };
    let mut buffer = vec![0u8; repr.buffer_len()];
    repr.emit(&mut Icmpv4Packet::new_unchecked(&mut buffer[..]), &ChecksumCapabilities::default());
    buffer
}

/// The echo reply to `request` carrying `data`, its checksum bytes zero: type
/// zero, the request's code, identifier and sequence number, then the data.
pub open spec fn reply_unsummed(request: Seq<u8>, data: Seq<u8>) -> Seq<u8> {
    seq![0u8, request[1], 0u8, 0u8] + request.subrange(4, 8) + data
}

/// The reply to `request` carrying `data`: the echo reply with the request's
/// code, identifier and sequence number and its internet checksum, its data
/// masked.
pub open spec fn reply_spec(request: Seq<u8>, data: Seq<u8>) -> Seq<u8> {
    let c = internet_checksum(reply_unsummed(request, data));
    reply_unsummed(request, data).take(8).update(2, (c / 0x100) as u8).update(3, (c % 0x100) as u8) + masked(
        data,
    )
}

/// Two big-endian byte pairs that give the same number are the same bytes.
proof fn lemma_be_bytes(a: u8, b: u8, c: u8, d: u8)
    requires
        0x100 * a + b == 0x100 * c + d,
    ensures
        a == c,
        b == d,
{
}

/// Builds the reply to the echo request `request` carrying `data`: the reply is
/// emitted, given the request's code and its checksum, and then its data
/// masked.
pub fn reply(request: &[u8], data: &[u8]) -> (r: Vec<u8>)
    requires
        request@.len() >= 8,
        data@.len() <= 0xffff - 8,
    ensures
        r@ == reply_spec(request@, data@),
        r@.len() == 8 + data@.len(),
        r@[0] == 0 && r@[1] == request@[1],
        be_u16(r@, 4) == be_u16(request@, 4) && be_u16(r@, 6) == be_u16(request@, 6),
        be_u16(r@, 2) == internet_checksum((r@.take(8) + data@).update(2, 0u8).update(3, 0u8)),
        r@.skip(8) == masked(data@),
{
    let ident = echo_ident_of(request);
    let seq_no = echo_seq_no_of(request);
    let code = echo_code_of(request);
    let mut packet = emit_echo_reply(ident, seq_no, data);
    set_echo_code(&mut packet, code);
    let ghost coded = packet@;
    fill_echo_checksum(&mut packet);
    let mut r: Vec<u8> = Vec::new();
    let mut i: usize = 0;
    while i < packet.len()
        invariant
            packet@.len() == 8 + data@.len(),
            i <= packet@.len(),
            r@.len() == i,
            forall|j: int| 0 <= j < i && j < 8 ==> r@[j] == packet@[j],
            forall|j: int| 8 <= j < i ==> r@[j] == packet@[j] ^ MASK,
        decreases packet@.len() - i,
    {
        if i < 8 {
            r.push(packet[i]);
        } else {
            r.push(packet[i] ^ MASK);
        }
        i = i + 1;
    }
    assert(r@ =~= packet@.take(8) + masked(packet@.skip(8)));
    assert(r@.take(8) + data@ =~= packet@);
    proof {
        let p = packet@;
        assert(p[4] == coded[4] && p[5] == coded[5] && p[6] == coded[6] && p[7] == coded[7]);
        lemma_be_bytes(p[4], p[5], request@[4], request@[5]);
        lemma_be_bytes(p[6], p[7], request@[6], request@[7]);
        let u = reply_unsummed(request@, data@);
        assert(coded.update(2, 0u8).update(3, 0u8) =~= u);
        assert(p.update(2, 0u8).update(3, 0u8) =~= u);
        let c = internet_checksum(u);
        assert(0x100 * p[2] + p[3] == c);
        assert(p[2] == (c / 0x100) as u8 && p[3] == (c % 0x100) as u8);
        assert(p.take(8) =~= u.take(8).update(2, (c / 0x100) as u8).update(3, (c % 0x100) as u8));
        assert(r@ =~= reply_spec(request@, data@));
    }
    r
}

/// Handles a received ICMP packet: its data behind the header is unmasked and
/// handled (see `FlagStore::handle`); an answer is sent back as the reply to the
/// packet, its data masked.
pub fn handle_packet(store: &mut FlagStore, packet: &[u8]) -> (r: ServerAction)
    requires
        packet@.len() >= 8,
        packet@.len() >= 9 && remote_function(packet@[8] ^ MASK) == RemoteFunction::AdmnCtrl && masked(
            packet@.skip(9),
        ) == admn() ==> old(store).flags().len() > 0,
    ensures
        packet@.len() == 8 ==> r == ServerAction::NoPayload && final(store).flags() == old(store).flags(),
        packet@.len() > 8 ==> {
            let d = masked(packet@.skip(8));
            &&& d[0] == packet@[8] ^ MASK
            &&& remote_function(d[0]) is Uknown ==> r == ServerAction::UnknownFunction(d[0])
            &&& remote_function(d[0]) is SetFlag && d.skip(1).len() == FLAG_LEN ==> final(store).flags() == old(store).flags().push(d.skip(1))
            &&& !(remote_function(d[0]) is SetFlag && d.skip(1).len() == FLAG_LEN) ==> final(store).flags() == old(store).flags()
            &&& remote_function(d[0]) is SetFlag && d.skip(1).len() != FLAG_LEN ==> r
                == ServerAction::BadFlagLength(d.skip(1).len() as usize)
            &&& !(remote_function(d[0]) is Uknown) && !(remote_function(d[0]) is SetFlag && d.skip(1).len() != FLAG_LEN) ==> match answer(d, old(store).flags()) {
                Some(a) => r matches ServerAction::Reply(v) && v@ == reply_spec(packet@, a),
                None => r == ServerAction::NoReply,
            }
        },
{
    let len = echo_header_len(packet);
    let body = tail_from(packet, len);
    let data = crypt(body.as_slice());
    proof {
        if packet@.len() >= 9 {
            assert(masked(packet@.skip(9)) =~= data@.skip(1));
        }
    }
    match store.handle(data.as_slice()) {
        ServerAction::Reply(v) => ServerAction::Reply(reply(packet, v.as_slice())),
        other => other,
    }
}

/// Whether the packet is the administrator control with the password, the
/// request `handle_packet` answers only once a flag is stored.
pub fn is_admin_request(packet: &[u8]) -> (r: bool)
    ensures
        r == (packet@.len() >= 9 && remote_function(packet@[8] ^ MASK) == RemoteFunction::AdmnCtrl && masked(
            packet@.skip(9),
        ) == admn()),
{
    if packet.len() < 9 {
        return false;
    }
    if packet[8] ^ MASK != 1 {
        return false;
    }
    let body = tail_from(packet, 9);
    let data = crypt(body.as_slice());
    let pw = admn_bytes();
    bytes_eq(data.as_slice(), pw.as_slice())
}

/// The bytes from `start` on.
fn tail_from(data: &[u8], start: usize) -> (r: Vec<u8>)
    requires
        start <= data@.len(),
    ensures
        r@ == data@.skip(start as int),
{
    let mut r: Vec<u8> = Vec::new();
    let mut i: usize = start;
    while i < data.len()
        invariant
            start <= i <= data@.len(),
            r@ == data@.subrange(start as int, i as int),
        decreases data@.len() - i,
    {
        r.push(data[i]);
        i = i + 1;
        assert(r@ =~= data@.subrange(start as int, i as int));
    }
    assert(r@ =~= data@.skip(start as int));
    r
}

} // verus!
