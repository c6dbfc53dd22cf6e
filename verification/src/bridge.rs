//! The data side of the bridges to the host system: the DTN daemon's AAP
//! messages, the text that RAUC, systemctl and journald print, and the
//! records built from them. Sending, running commands and reading
//! sockets happen outside this library.

use vstd::prelude::*;
use vstd::utf8::{encode_utf8, decode_utf8, valid_utf8};
use crate::text::{chars_of, string_of, str_eq, trim_chars, trim_ws, lines, lines_of, find_text, contains_text,
    first_occurrence, first_word, first_word_of, parse_unsigned, spec_parse_unsigned};

verus! {

/// Errors of the bridges.
#[derive(Debug)]
pub enum BridgeError {
    /// A command could not be run or failed.
    CommandFailed(String),
    /// A daemon socket could not be used.
    SocketUnavailable(String),
    /// RAUC refused the operation.
    RaucFailed(String),
    /// A reply could not be decoded.
    Deserialization(String),
}

/// Priority of a DTN bundle.
#[derive(Debug, Clone, Copy, PartialEq, Eq, Structural)]
pub enum DtnPriority {
    /// Priority 0: bulk, non-critical data.
    Bulk,
    /// Priorities 1 to 3: standard telemetry.
    Normal,
    /// Priorities 4 and 5: operational commands.
    High,
    /// Priority 6 and above: safe mode, emergencies.
    Expedited,
}

impl DtnPriority {
    /// The byte sent for this priority.
    pub open spec fn byte(self) -> u8 {
        match self {
            DtnPriority::Bulk => 0,
            DtnPriority::Normal => 2,
            DtnPriority::High => 4,
            DtnPriority::Expedited => 6,
        }
    }

    /// The byte sent for this priority.
    pub fn as_byte(self) -> (b: u8)
        ensures
            b == self.byte(),
    {
        match self {
            DtnPriority::Bulk => 0,
            DtnPriority::Normal => 2,
            DtnPriority::High => 4,
            DtnPriority::Expedited => 6,
        }
    }
}

/// The priority a received byte stands for.
pub open spec fn priority_of_byte(v: u8) -> DtnPriority {
    if v == 0 {
        DtnPriority::Bulk
    } else if v <= 3 {
        DtnPriority::Normal
    } else if v <= 5 {
        DtnPriority::High
    } else {
        DtnPriority::Expedited
    }
}

impl From<u8> for DtnPriority {
    fn from(val: u8) -> (p: Self) {
        if val == 0 {
            DtnPriority::Bulk
        } else if val <= 3 {
            DtnPriority::Normal
        } else if val <= 5 {
            DtnPriority::High
        } else {
            DtnPriority::Expedited
        }
    }
}

impl vstd::std_specs::convert::FromSpecImpl<u8> for DtnPriority {
    open spec fn obeys_from_spec() -> bool {
        true
    }

    open spec fn from_spec(v: u8) -> DtnPriority {
        priority_of_byte(v)
    }
}

/// A number as two big-endian bytes, modulo 2^16 (as `as u16` keeps it).
pub open spec fn be16(n: nat) -> Seq<u8> {
    seq![((n % 65536) / 256) as u8, (n % 256) as u8]
}

/// A number as four big-endian bytes, modulo 2^32 (as `as u32` keeps it).
pub open spec fn be32(n: nat) -> Seq<u8> {
    let m = n % 0x1_0000_0000;
    seq![(m / 0x100_0000) as u8, ((m / 0x1_0000) % 256) as u8, ((m / 256) % 256) as u8, (m % 256) as u8]
}

/// The AAP request that sends a bundle: "BUNDLE", the version byte 0x20,
/// each endpoint as a 16-bit length and its UTF-8 bytes, the priority
/// byte, the payload as a 32-bit length and its bytes.
pub open spec fn aap_send_request(dest: Seq<u8>, src: Seq<u8>, payload: Seq<u8>, priority: u8) -> Seq<u8> {
    seq![0x42u8, 0x55, 0x4E, 0x44, 0x4C, 0x45, 0x20] + be16(dest.len()) + dest + be16(src.len()) + src + seq![priority]
        + be32(payload.len()) + payload
}

/// Appends bytes.
fn append_bytes(v: &mut Vec<u8>, b: &[u8])
    ensures
        final(v)@ == old(v)@ + b@,
{
    let mut i: usize = 0;
    let ghost start = v@;
    while i < b.len()
        invariant
            i <= b@.len(),
            v@ == start + b@.take(i as int),
        decreases b@.len() - i,
    {
        v.push(b[i]);
        i = i + 1;
        proof {
            assert(v@ =~= start + b@.take(i as int));
        }
    }
    proof {
        assert(b@.take(b@.len() as int) =~= b@);
    }
}

/// Appends a length as two big-endian bytes, modulo 2^16.
fn push_be16(v: &mut Vec<u8>, n: usize)
    ensures
        final(v)@ == old(v)@ + be16(n as nat),
{
    let m: u64 = (n as u64) % 65536;
    v.push((m / 256) as u8);
    v.push((m % 256) as u8);
    proof {
        assert(final(v)@ =~= old(v)@ + be16(n as nat));
    }
}

/// Appends a length as four big-endian bytes, modulo 2^32.
fn push_be32(v: &mut Vec<u8>, n: usize)
    ensures
        final(v)@ == old(v)@ + be32(n as nat),
{
    let m: u64 = (n as u64) % 0x1_0000_0000;
    v.push((m / 0x100_0000) as u8);
    v.push(((m / 0x1_0000) % 256) as u8);
    v.push(((m / 256) % 256) as u8);
    v.push((m % 256) as u8);
    proof {
        assert(final(v)@ =~= old(v)@ + be32(n as nat));
    }
}

/// The AAP request that sends `payload` from `source_eid` to
/// `destination_eid` with `priority`.
pub fn encode_send_request(destination_eid: &str, source_eid: &str, payload: &[u8], priority: DtnPriority) -> (req: Vec<u8>)
    ensures
        req@ == aap_send_request(encode_utf8(destination_eid@), encode_utf8(source_eid@), payload@, priority.byte()),
{
    let mut req: Vec<u8> = Vec::new();
    req.push(0x42);
    req.push(0x55);
    req.push(0x4E);
    req.push(0x44);
    req.push(0x4C);
    req.push(0x45);
    req.push(0x20);
    let ghost header = req@;
    let dest = destination_eid.as_bytes();
    push_be16(&mut req, dest.len());
    append_bytes(&mut req, dest);
    let src = source_eid.as_bytes();
    push_be16(&mut req, src.len());
    append_bytes(&mut req, src);
    req.push(priority.as_byte());
    push_be32(&mut req, payload.len());
    append_bytes(&mut req, payload);
    proof {
        assert(header =~= seq![0x42u8, 0x55, 0x4E, 0x44, 0x4C, 0x45, 0x20]);
        assert(req@ =~= aap_send_request(encode_utf8(destination_eid@), encode_utf8(source_eid@), payload@, priority.byte()));
    }
    req
}

/// The text `String::from_utf8_lossy` makes of some bytes.
pub uninterp spec fn spec_utf8_lossy(bytes: Seq<u8>) -> Seq<char>;

/// Calls `String::from_utf8_lossy`. Trusted: the text is named
/// `spec_utf8_lossy` of the bytes, and it is their UTF-8 decoding when
/// they are valid UTF-8 (std documents that valid input is returned
/// unchanged). What replaces invalid sequences is left unsaid.
#[verifier::external_body]
fn utf8_lossy(bytes: &[u8]) -> (s: String)
    ensures
        s@ == spec_utf8_lossy(bytes@),
        valid_utf8(bytes@) ==> s@ == decode_utf8(bytes@),
{
    String::from_utf8_lossy(bytes).into_owned()
}

/// The bundle identifier a confirmation carries: its text, trimmed.
pub fn bundle_id_from_text(text: &str) -> (id: String)
    ensures
        id@ == trim_ws(text@),
{
    let cs = chars_of(text);
    let t = trim_chars(cs.as_slice());
    string_of(t.as_slice())
}

/// The bundle identifier in the daemon's confirmation bytes.
pub fn bundle_id_from_response(response: &[u8]) -> (id: String)
    ensures
        id@ == trim_ws(spec_utf8_lossy(response@)),
{
    let text = utf8_lossy(response);
    bundle_id_from_text(text.as_str())
}

/// A bundle received from the DTN daemon.
#[derive(Debug)]
pub struct DtnBundle {
    pub bundle_id: String,
    pub source_eid: String,
    pub destination_eid: String,
    pub payload: Vec<u8>,
    pub timestamp: String,
    pub priority: u8,
    pub lifetime_seconds: u32,
}

/// Status of the DTN node.
#[derive(Debug)]
pub struct DtnNodeStatus {
    pub node_eid: String,
    pub contacts: Vec<DtnContact>,
    pub pending_bundles: u32,
    pub delivered_bundles: u64,
    pub storage_used_bytes: u64,
    pub storage_max_bytes: u64,
}

/// A DTN contact (an available route).
#[derive(Debug)]
pub struct DtnContact {
    pub eid: String,
    pub next_hop: String,
    pub last_seen: String,
    pub is_active: bool,
}

/// Position of the first '|' (the length when there is none).
pub open spec fn first_bar(s: Seq<char>) -> int
    decreases s.len(),
{
    if s.len() == 0 {
        0
    } else if s[0] == '|' {
        0
    } else {
        1 + first_bar(s.drop_first())
    }
}

/// At most `n` fields of a text separated by '|', the last one holding
/// the rest (`splitn(n, '|')`).
pub open spec fn split_bar(s: Seq<char>, n: nat) -> Seq<Seq<char>>
    decreases n,
{
    if n <= 1 {
        seq![s]
    } else if first_bar(s) < s.len() {
        seq![s.take(first_bar(s))] + split_bar(s.skip(first_bar(s) + 1), (n - 1) as nat)
    } else {
        seq![s]
    }
}

/// The priority field of a received bundle: a decimal byte, 3 when it is
/// not one.
pub open spec fn aap_priority(s: Seq<char>) -> u8 {
    match spec_parse_unsigned(s, 255) {
        Some(v) => v as u8,
        None => 3,
    }
}

/// The bundle decoded from the daemon's text, or the error: six fields
/// "id|source|destination|payload|timestamp|priority" (the last holding
/// the rest of the text).
pub open spec fn aap_bundle_matches(r: Result<DtnBundle, BridgeError>, text: Seq<char>) -> bool {
    let parts = split_bar(text, 6);
    if parts.len() < 6 {
        r matches Err(BridgeError::Deserialization(m)) && m@ == "Invalid AAP bundle format"@
    } else {
        r matches Ok(b) && {
            &&& b.bundle_id@ == parts[0]
            &&& b.source_eid@ == parts[1]
            &&& b.destination_eid@ == parts[2]
            &&& b.payload@ == encode_utf8(parts[3])
            &&& b.timestamp@ == parts[4]
            &&& b.priority == aap_priority(parts[5])
            &&& b.lifetime_seconds == 3600
        }
    }
}

/// The first '|' is at `j` when none comes before it.
proof fn lemma_first_bar(s: Seq<char>, j: int)
    requires
        0 <= j <= s.len(),
        forall|m: int| 0 <= m < j ==> s[m] != '|',
        j < s.len() ==> s[j] == '|',
    ensures
        first_bar(s) == j,
    decreases s.len(),
{
    if s.len() > 0 && j > 0 {
        lemma_first_bar(s.drop_first(), j - 1);
    }
}

/// The characters of `s` from `lo` to `hi`.
fn chars_between(s: &[char], lo: usize, hi: usize) -> (v: Vec<char>)
    requires
        lo <= hi <= s@.len(),
    ensures
        v@ == s@.subrange(lo as int, hi as int),
{
    let mut v: Vec<char> = Vec::new();
    let mut k: usize = lo;
    while k < hi
        invariant
            lo <= k <= hi,
            hi <= s@.len(),
            v@ == s@.subrange(lo as int, k as int),
        decreases hi - k,
    {
        v.push(s[k]);
        k = k + 1;
        proof {
            assert(v@ =~= s@.subrange(lo as int, k as int));
        }
    }
    v
}

/// The fields of a text separated by '|', at most six.
fn split_six(s: &[char]) -> (parts: Vec<Vec<char>>)
    ensures
        parts@.map_values(|p: Vec<char>| p@) == split_bar(s@, 6),
{
    let mut parts: Vec<Vec<char>> = Vec::new();
    let mut start: usize = 0;
    let mut done = false;
    proof {
        assert(s@.skip(0) =~= s@);
    }
    while !done
        invariant
            start <= s@.len(),
            parts@.len() <= 6,
            !done ==> parts@.len() < 6,
            !done ==> parts@.map_values(|p: Vec<char>| p@) + split_bar(s@.skip(start as int), (6 - parts@.len()) as nat)
                == split_bar(s@, 6),
            done ==> parts@.map_values(|p: Vec<char>| p@) == split_bar(s@, 6),
        decreases 6 - parts@.len() + (if done { 0int } else { 1int }),
    {
        let ghost rest = s@.skip(start as int);
        let ghost before = parts@.map_values(|p: Vec<char>| p@);
        let ghost n = (6 - parts@.len()) as nat;
        let mut j: usize = start;
        while j < s.len() && s[j] != '|'
            invariant
                start <= j <= s@.len(),
                forall|m: int| start <= m < j ==> s@[m] != '|',
            decreases s@.len() - j,
        {
            j = j + 1;
        }
        proof {
            lemma_first_bar(rest, j - start);
        }
        if parts.len() == 5 || j == s.len() {
            let last = chars_between(s, start, s.len());
            proof {
                assert(last@ =~= rest);
            }
            parts.push(last);
            proof {
                assert(parts@.map_values(|p: Vec<char>| p@) =~= before + seq![rest]);
            }
            done = true;
        } else {
            let field = chars_between(s, start, j);
            proof {
                assert(field@ =~= rest.take(j - start));
                assert(rest.skip(j - start + 1) =~= s@.skip(j + 1));
            }
            parts.push(field);
            proof {
                assert(parts@.map_values(|p: Vec<char>| p@) =~= before.push(rest.take(j - start)));
                assert(before.push(rest.take(j - start)) + split_bar(s@.skip(j + 1), (n - 1) as nat) =~= before + (
                seq![rest.take(j - start)] + split_bar(rest.skip(j - start + 1), (n - 1) as nat)));
            }
            start = j + 1;
        }
    }
    parts
}

impl DtnBundle {
    /// Decodes a bundle from the daemon's reply text.
    pub fn from_aap_text(text: &str) -> (r: Result<DtnBundle, BridgeError>)
        ensures
            aap_bundle_matches(r, text@),
    {
        let cs = chars_of(text);
        let parts = split_six(cs.as_slice());
        if parts.len() < 6 {
            return Err(BridgeError::Deserialization("Invalid AAP bundle format".to_string()));
        }
        let payload_text = string_of(parts[3].as_slice());
        let payload = vstd::slice::slice_to_vec(payload_text.as_str().as_bytes());
        let priority: u8 = match parse_unsigned(parts[5].as_slice(), 255) {
            Some(v) => v as u8,
            None => 3,
        };
        Ok(DtnBundle {
            bundle_id: string_of(parts[0].as_slice()),
            source_eid: string_of(parts[1].as_slice()),
            destination_eid: string_of(parts[2].as_slice()),
            payload,
            timestamp: string_of(parts[4].as_slice()),
            priority,
            lifetime_seconds: 3600,
        })
    }

    /// Decodes a bundle from the daemon's reply bytes.
    pub fn from_aap_response(data: &[u8]) -> (r: Result<DtnBundle, BridgeError>)
        ensures
            aap_bundle_matches(r, spec_utf8_lossy(data@)),
    {
        let text = utf8_lossy(data);
        Self::from_aap_text(text.as_str())
    }
}

/// One RAUC slot.
#[derive(Debug)]
pub struct SlotStatus {
    pub class: String,
    pub device: String,
    /// File-system type of the slot (`type` in RAUC's output).
    pub slot_type: String,
    pub state: String,
    pub description: String,
    pub boot_count: u32,
    pub last_booted: String,
}

/// RAUC's view of the A/B slots.
#[derive(Debug)]
pub struct RaucStatus {
    pub compatible: String,
    pub variant: String,
    pub slot_a: SlotStatus,
    pub slot_b: SlotStatus,
    pub boot_primary: String,
}

/// Result of a RAUC installation.
#[derive(Debug)]
pub struct RaucInstallResult {
    pub success: bool,
    pub bundle_path: String,
    pub message: String,
    pub requires_reboot: bool,
}

/// Result of checking a bundle before installation.
#[derive(Debug)]
pub struct BundleVerification {
    pub valid: bool,
    pub bundle_path: String,
    pub compatible: String,
    pub version: String,
}

impl RaucInstallResult {
    /// The result RAUC's acceptance of the bundle at `bundle_path` gives:
    /// installed on the inactive slot, to be booted.
    pub fn installed(bundle_path: &str) -> (r: Self)
        ensures
            r.success,
            r.bundle_path@ == bundle_path@,
            r.message@ == "Bundle installed on inactive slot. Reboot required."@,
            r.requires_reboot,
    {
        RaucInstallResult {
            success: true,
            bundle_path: bundle_path.to_owned(),
            message: "Bundle installed on inactive slot. Reboot required.".to_string(),
            requires_reboot: true,
        }
    }
}

impl BundleVerification {
    /// The result for a bundle whose information RAUC could read.
    pub fn verified(bundle_path: &str) -> (r: Self)
        ensures
            r.valid,
            r.bundle_path@ == bundle_path@,
            r.compatible@ == "verified"@,
            r.version@ == "1.0.0"@,
    {
        BundleVerification {
            valid: true,
            bundle_path: bundle_path.to_owned(),
            compatible: "verified".to_string(),
            version: "1.0.0".to_string(),
        }
    }
}

/// The value after the first "Booted:" of a line, up to the next
/// "Booted:" if any, trimmed.
pub open spec fn booted_value(line: Seq<char>) -> Seq<char> {
    match first_occurrence(line, "Booted:"@) {
        Some(i) => {
            let after = line.skip(i + 7);
            match first_occurrence(after, "Booted:"@) {
                Some(j) => trim_ws(after.take(j)),
                None => trim_ws(after),
            }
        },
        None => "A"@,
    }
}

/// The booted slot: the value of the last line that names one, "A" when
/// none does.
pub open spec fn boot_slot_of(ls: Seq<Seq<char>>) -> Seq<char>
    decreases ls.len(),
{
    if ls.len() == 0 {
        "A"@
    } else if contains_text(trim_ws(ls.last()), "Booted:"@) {
        booted_value(trim_ws(ls.last()))
    } else {
        boot_slot_of(ls.drop_last())
    }
}

/// Whether some line names the slot by one of two names.
pub open spec fn slot_listed(ls: Seq<Seq<char>>, name1: Seq<char>, name2: Seq<char>) -> bool {
    exists|k: int| 0 <= k < ls.len() && (contains_text(trim_ws(ls[k]), name1) || contains_text(trim_ws(ls[k]), name2))
}

/// A slot as the text report describes it.
pub open spec fn slot_matches(s: SlotStatus, device: Seq<char>, state: Seq<char>, description: Seq<char>, boot_count: u32) -> bool {
    &&& s.class@ == "rootfs"@
    &&& s.device@ == device
    &&& s.slot_type@ == "ext4"@
    &&& s.state@ == state
    &&& s.description@ == description
    &&& s.boot_count == boot_count
    &&& s.last_booted@.len() == 0
}

/// The status read from `rauc status`'s text output: slot A (B) is "ok"
/// when a line names "[rootfs.0]" or "rootfs_a" ("[rootfs.1]" or
/// "rootfs_b"), "inactive" otherwise; the booted slot is the last
/// "Booted:" value.
pub open spec fn rauc_text_status(r: RaucStatus, text: Seq<char>) -> bool {
    let ls = lines_of(text);
    &&& r.compatible@ == "asterquanta-qemux86-64"@
    &&& r.variant@.len() == 0
    &&& slot_matches(r.slot_a, "/dev/disk/by-partlabel/rootfs_a"@,
        if slot_listed(ls, "[rootfs.0]"@, "rootfs_a"@) { "ok"@ } else { "inactive"@ }, "AsterQuanta OS Slot A"@, 1)
    &&& slot_matches(r.slot_b, "/dev/disk/by-partlabel/rootfs_b"@,
        if slot_listed(ls, "[rootfs.1]"@, "rootfs_b"@) { "ok"@ } else { "inactive"@ }, "AsterQuanta OS Slot B"@, 0)
    &&& r.boot_primary@ == boot_slot_of(ls)
}

/// Whether a line (once trimmed) holds one of two names.
fn names_either(t: &Vec<char>, a: &Vec<char>, b: &Vec<char>) -> (r: bool)
    ensures
        r == (contains_text(t@, a@) || contains_text(t@, b@)),
{
    find_text(t.as_slice(), a.as_slice()).is_some() || find_text(t.as_slice(), b.as_slice()).is_some()
}

/// The characters of `s` from `lo` on.
fn chars_from(s: &[char], lo: usize) -> (v: Vec<char>)
    requires
        lo <= s@.len(),
    ensures
        v@ == s@.skip(lo as int),
{
    let v = chars_between(s, lo, s.len());
    proof {
        assert(v@ =~= s@.skip(lo as int));
    }
    v
}

/// The booted-slot value of a trimmed line that holds "Booted:".
fn booted_value_of(t: &Vec<char>, pat: &Vec<char>) -> (v: Vec<char>)
    requires
        pat@ == "Booted:"@,
        pat@.len() == 7,
    ensures
        v@ == booted_value(t@),
{
    match find_text(t.as_slice(), pat.as_slice()) {
        Some(i) => {
            let n = t.len();
            assert(i + 7 <= n);
            let after = chars_from(t.as_slice(), i + 7);
            match find_text(after.as_slice(), pat.as_slice()) {
                Some(j) => {
                    let head = chars_between(after.as_slice(), 0, j);
                    proof {
                        assert(head@ =~= after@.take(j as int));
                    }
                    trim_chars(head.as_slice())
                },
                None => trim_chars(after.as_slice()),
            }
        },
        None => {
            let a = chars_of("A");
            a
        },
    }
}

/// Reads RAUC's status from the text of `rauc status`.
pub fn parse_rauc_status_text(text: &str) -> (r: Result<RaucStatus, BridgeError>)
    ensures
        r matches Ok(st) && rauc_text_status(st, text@),
{
    let cs = chars_of(text);
    let ls = lines(cs.as_slice());
    let ghost lv = ls@.map_values(|l: Vec<char>| l@);
    let pat = chars_of("Booted:");
    let a0 = chars_of("[rootfs.0]");
    let a1 = chars_of("rootfs_a");
    let b0 = chars_of("[rootfs.1]");
    let b1 = chars_of("rootfs_b");
    proof {
        reveal_strlit("Booted:");
    }
    let mut boot: Vec<char> = chars_of("A");
    let mut slot_a = false;
    let mut slot_b = false;
    let mut k: usize = 0;
    while k < ls.len()
        invariant
            k <= ls@.len(),
            lv == ls@.map_values(|l: Vec<char>| l@),
            pat@ == "Booted:"@,
            pat@.len() == 7,
            a0@ == "[rootfs.0]"@,
            a1@ == "rootfs_a"@,
            b0@ == "[rootfs.1]"@,
            b1@ == "rootfs_b"@,
            boot@ == boot_slot_of(lv.take(k as int)),
            slot_a == slot_listed(lv.take(k as int), "[rootfs.0]"@, "rootfs_a"@),
            slot_b == slot_listed(lv.take(k as int), "[rootfs.1]"@, "rootfs_b"@),
        decreases ls@.len() - k,
    {
        let t = trim_chars(ls[k].as_slice());
        proof {
            assert(lv.take(k + 1).drop_last() =~= lv.take(k as int));
            assert(lv.take(k + 1).last() == lv[k as int]);
            assert(lv[k as int] == ls@[k as int]@);
        }
        if find_text(t.as_slice(), pat.as_slice()).is_some() {
            boot = booted_value_of(&t, &pat);
        }
        let has_a = names_either(&t, &a0, &a1);
        let has_b = names_either(&t, &b0, &b1);
        proof {
            let prev = lv.take(k as int);
            let cur = lv.take(k + 1);
            assert forall|m: int| 0 <= m < prev.len() implies cur[m] == prev[m] by {}
            if has_a && !slot_a {
                assert(cur[k as int] == lv[k as int]);
            }
            if slot_a {
                let w = choose|m: int| 0 <= m < prev.len() && (contains_text(trim_ws(prev[m]), "[rootfs.0]"@) || contains_text(
                    trim_ws(prev[m]),
                    "rootfs_a"@,
                ));
                assert(cur[w] == prev[w]);
            }
            if has_b && !slot_b {
                assert(cur[k as int] == lv[k as int]);
            }
            if slot_b {
                let w = choose|m: int| 0 <= m < prev.len() && (contains_text(trim_ws(prev[m]), "[rootfs.1]"@) || contains_text(
                    trim_ws(prev[m]),
                    "rootfs_b"@,
                ));
                assert(cur[w] == prev[w]);
            }
            if !has_a {
                assert forall|m: int| 0 <= m < cur.len() && (contains_text(trim_ws(cur[m]), "[rootfs.0]"@) || contains_text(trim_ws(cur[m]), "rootfs_a"@)) implies m < prev.len() by {
                    if m == k as int {
                        assert(cur[m] == lv[k as int]);
                    }
                }
            }
            if !has_b {
                assert forall|m: int| 0 <= m < cur.len() && (contains_text(trim_ws(cur[m]), "[rootfs.1]"@) || contains_text(trim_ws(cur[m]), "rootfs_b"@)) implies m < prev.len() by {
                    if m == k as int {
                        assert(cur[m] == lv[k as int]);
                    }
                }
            }
        }
        slot_a = slot_a || has_a;
        slot_b = slot_b || has_b;
        k = k + 1;
    }
    proof {
        assert(lv.take(ls@.len() as int) =~= lv);
    }
    let state_a = if slot_a { "ok".to_string() } else { "inactive".to_string() };
    let state_b = if slot_b { "ok".to_string() } else { "inactive".to_string() };
    Ok(RaucStatus {
        compatible: "asterquanta-qemux86-64".to_string(),
        variant: String::new(),
        slot_a: SlotStatus {
            class: "rootfs".to_string(),
            device: "/dev/disk/by-partlabel/rootfs_a".to_string(),
            slot_type: "ext4".to_string(),
            state: state_a,
            description: "AsterQuanta OS Slot A".to_string(),
            boot_count: 1,
            last_booted: String::new(),
        },
        slot_b: SlotStatus {
            class: "rootfs".to_string(),
            device: "/dev/disk/by-partlabel/rootfs_b".to_string(),
            slot_type: "ext4".to_string(),
            state: state_b,
            description: "AsterQuanta OS Slot B".to_string(),
            boot_count: 0,
            last_booted: String::new(),
        },
        boot_primary: string_of(boot.as_slice()),
    })
}

/// The services named by a `systemctl list-units` listing: the first
/// word of each non-empty line that mentions ".service".
pub open spec fn service_names_in(ls: Seq<Seq<char>>) -> Seq<Seq<char>>
    decreases ls.len(),
{
    if ls.len() == 0 {
        Seq::empty()
    } else {
        let l = ls.last();
        if l.len() > 0 && contains_text(l, ".service"@) && first_word(l).len() > 0 {
            service_names_in(ls.drop_last()).push(first_word(l))
        } else {
            service_names_in(ls.drop_last())
        }
    }
}

/// The services listed in the output of `systemctl list-units`.
pub fn service_names(listing: &str) -> (names: Vec<String>)
    ensures
        names@.map_values(|s: String| s@) == service_names_in(lines_of(listing@)),
{
    let cs = chars_of(listing);
    let ls = lines(cs.as_slice());
    let ghost lv = ls@.map_values(|l: Vec<char>| l@);
    let pat = chars_of(".service");
    let mut names: Vec<String> = Vec::new();
    let mut k: usize = 0;
    while k < ls.len()
        invariant
            k <= ls@.len(),
            lv == ls@.map_values(|l: Vec<char>| l@),
            pat@ == ".service"@,
            names@.map_values(|s: String| s@) == service_names_in(lv.take(k as int)),
        decreases ls@.len() - k,
    {
        let l = &ls[k];
        proof {
            assert(lv.take(k + 1).drop_last() =~= lv.take(k as int));
            assert(lv.take(k + 1).last() == l@);
        }
        if l.len() > 0 && find_text(l.as_slice(), pat.as_slice()).is_some() {
            let w = first_word_of(l.as_slice());
            if w.len() > 0 {
                let ghost before = names@.map_values(|s: String| s@);
                names.push(string_of(w.as_slice()));
                proof {
                    assert(names@.map_values(|s: String| s@) =~= before.push(w@));
                }
            }
        }
        k = k + 1;
    }
    proof {
        assert(lv.take(ls@.len() as int) =~= lv);
    }
    names
}

/// State of a systemd service.
#[derive(Debug)]
pub struct AqmServiceState {
    pub service: String,
    pub active_state: String,
    pub sub_state: String,
    pub restarts: u32,
}

/// The state read from `systemctl show --value` of ActiveState, SubState
/// and NRestarts, one per line: "unknown" for a missing state, 0 for a
/// missing or unreadable count.
pub open spec fn service_state_matches(st: AqmServiceState, name: Seq<char>, output: Seq<char>) -> bool {
    let ls = lines_of(output);
    &&& st.service@ == name
    &&& st.active_state@ == (if ls.len() > 0 { ls[0] } else { "unknown"@ })
    &&& st.sub_state@ == (if ls.len() > 1 { ls[1] } else { "unknown"@ })
    &&& st.restarts == (if ls.len() > 2 {
        match spec_parse_unsigned(ls[2], u32::MAX as nat) {
            Some(v) => v as u32,
            None => 0u32,
        }
    } else {
        0u32
    })
}

/// The state of the service `name` from the output of `systemctl show`.
pub fn parse_service_state(name: &str, output: &str) -> (st: AqmServiceState)
    ensures
        service_state_matches(st, name@, output@),
{
    let cs = chars_of(output);
    let ls = lines(cs.as_slice());
    proof {
        assert(ls@.len() == lines_of(output@).len());
        if ls@.len() > 0 {
            assert(ls@[0]@ == lines_of(output@)[0]);
        }
        if ls@.len() > 1 {
            assert(ls@[1]@ == lines_of(output@)[1]);
        }
        if ls@.len() > 2 {
            assert(ls@[2]@ == lines_of(output@)[2]);
        }
    }
    let active_state = if ls.len() > 0 { string_of(ls[0].as_slice()) } else { "unknown".to_string() };
    let sub_state = if ls.len() > 1 { string_of(ls[1].as_slice()) } else { "unknown".to_string() };
    let restarts: u32 = if ls.len() > 2 {
        match parse_unsigned(ls[2].as_slice(), u32::MAX as u64) {
            Some(v) => v as u32,
            None => 0,
        }
    } else {
        0
    };
    AqmServiceState { service: name.to_owned(), active_state, sub_state, restarts }
}

} // verus!
