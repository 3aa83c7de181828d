//! Where captures and audit logs are kept, and how their files are named.
use vstd::prelude::*;
use vstd::utf8::{encode_utf8, is_ascii_chars, is_ascii_chars_encode_utf8};

use crate::paths::{
    components, directory_of, ends_in_name, final_name, has_parent, is_plain, is_portable, lemma_root,
    path_parent,
};
use crate::pcap::push_all;
use crate::retention::{has_pcap_extension, law_names_of_captures};
use crate::text::{
    chars_of, hex_digit, hex_text, hexadecimal, law_last_occurrence,
};
use crate::traffic::CaptureObserver;
use crate::tunnel::{
    all_key_chars, is_key_char, is_letter_digit_hyphen_or_underscore, key_char, law_valid_key,
};

verus! {

/// The characters of a text that may stand in a file name.
pub open spec fn kept(value: Seq<char>) -> Seq<char> {
    value.filter(|c: char| is_key_char(c))
}

/// A text as a file name: the letters, digits, hyphens and underscores of its ASCII characters, at
/// most 128 of them.
pub open spec fn safe_name(value: Seq<char>) -> Seq<char> {
    let name = if kept(value).len() <= 128 {
        kept(value)
    } else {
        kept(value).take(128)
    };
    if name.len() == 0 {
        "unknown"@
    } else {
        name
    }
}

/// A text as a file name.
pub fn safe_segment(value: &str) -> (r: String)
    ensures
        r@ == safe_name(value@),
{
    let chars = chars_of(value);
    let mut r = String::new();
    let mut length: usize = 0;
    let mut i: usize = 0;
    let ghost keep = |c: char| is_key_char(c);
    assert(value@.take(0).filter(keep) == Seq::<char>::empty()) by {
        reveal(Seq::filter);
    }
    while i < chars.len() && length < 128
        invariant
            chars@ == value@,
            i <= chars@.len(),
            keep == (|c: char| is_key_char(c)),
            length <= 128,
            r@.len() == length,
            r@ == value@.take(i as int).filter(keep),
        decreases chars@.len() - i,
    {
        let c: char = chars[i];
        proof {
            reveal(Seq::filter);
            assert(value@.take(i + 1).drop_last() == value@.take(i as int));
            assert(value@.take(i + 1).last() == c);
        }
        if key_char(c) {
            r.push(c);
            length = length + 1;
        }
        i = i + 1;
    }
    proof {
        let head = value@.take(i as int);
        let tail = value@.skip(i as int);
        assert(value@ == head + tail);
        Seq::filter_distributes_over_add(head, tail, keep);
        if i == chars@.len() {
            assert(head == value@);
        } else {
            assert(kept(value@).take(128) == r@);
        }
        if kept(value@).len() <= 128 {
            assert(kept(value@).len() == r@.len() + tail.filter(keep).len());
            if i < chars@.len() {
                assert(kept(value@) == r@);
            }
        }
    }
    if length == 0 {
        "unknown".to_string()
    } else {
        r
    }
}

/// `random::<u64>`, from the crate `rand`: a random number. Nothing is known of it.
#[verifier::external_body]
fn random_u64() -> u64 {
    rand::random::<u64>()
}

/// The name of a connection with a given number: sixteen hexadecimal digits.
pub fn connection_id(number: u64) -> (r: String)
    ensures
        r@ == hexadecimal(number as nat, 16),
{
    hex_text(number, 16)
}

/// The name of a new connection: sixteen hexadecimal digits of a random number. Which number comes
/// up is left open.
pub fn random_connection_id() -> (r: String)
    ensures
        exists|number: u64| r@ == #[trigger] hexadecimal(number as nat, 16),
{
    let number: u64 = random_u64();
    connection_id(number)
}

/// The directory for captures that holds where no file for the registry is configured.
pub open spec fn standard_capture_root() -> Seq<char> {
    "/var/lib/labstreamgate"@
}

/// The directory for captures beside the file of the registry, of which the parent directory is
/// given.
pub fn capture_root_in(parent: Option<String>) -> (r: String)
    ensures
        r@ == (match parent {
            Some(parent) => parent@,
            None => standard_capture_root(),
        }),
{
    match parent {
        Some(parent) => parent,
        None => "/var/lib/labstreamgate".to_string(),
    }
}

/// The directory for captures where none is configured: the one that holds the file of the
/// registry, or the standard one where there is no such file or where it has no parent. That of a
/// plain path is what stands before its last slash, that of a portable path has all its components
/// but the last.
pub fn default_capture_root(state_file: Option<&str>) -> (r: String)
    ensures
        state_file is None ==> r@ == standard_capture_root(),
        state_file matches Some(path) ==> {
            &&& is_plain(path@) ==> r@ == directory_of(path@)
            &&& path@.len() == 0 || path@ == "/"@ ==> r@ == standard_capture_root()
            &&& is_portable(path@) && !has_parent(path@) ==> r@ == standard_capture_root()
            &&& is_portable(path@) && has_parent(path@) ==> components(r@) == components(
                path@,
            ).drop_last()
            &&& ends_in_name(path@) ==> r@.is_prefix_of(path@) && r@.len() < path@.len()
            &&& r@ == standard_capture_root() || (r@.is_prefix_of(path@) && r@.len() < path@.len())
        },
{
    proof {
        lemma_root();
    }
    match state_file {
        Some(path) => capture_root_in(path_parent(path)),
        None => capture_root_in(None),
    }
}

/// The path of a connection's capture below the directory for captures.
pub open spec fn capture_path(instance: Seq<char>, connection: Seq<char>) -> Seq<char> {
    "captures/"@ + safe_name(instance) + "/"@ + connection + ".pcap"@
}

/// The capture of one connection.
#[derive(Debug, PartialEq, Eq)]
pub struct CaptureSession {
    pub observer: CaptureObserver,
    pub relative_path: String,
}

impl CaptureSession {
    /// A capture that holds nothing yet, and where its file goes.
    pub fn start(instance_id: &str, connection_id: &str, max_bytes: u64) -> (r: Self)
        ensures
            r.observer == (CaptureObserver { captured: 0, truncated: false, max_bytes }),
            r.relative_path@ == capture_path(instance_id@, connection_id@),
    {
        let mut relative_path = "captures/".to_string();
        relative_path.append(safe_segment(instance_id).as_str());
        relative_path.append("/");
        relative_path.append(connection_id);
        relative_path.append(".pcap");
        CaptureSession { observer: CaptureObserver::new(max_bytes), relative_path }
    }

    /// How many payload bytes were captured, and whether some traffic is missing.
    pub fn finish(&self) -> (r: (u64, bool))
        ensures
            r == (self.observer.captured, self.observer.truncated),
    {
        (self.observer.captured, self.observer.truncated)
    }
}

/// The size from which on an audit log is set aside.
pub const AUDIT_ROTATION_BYTES: u64 = 16_777_216;

/// The path of an instance's audit log below the directory for captures.
pub open spec fn audit_path(instance: Seq<char>) -> Seq<char> {
    "audit/"@ + safe_name(instance) + ".jsonl"@
}

/// The path of an instance's audit log below the directory for captures.
pub fn audit_file(instance_id: &str) -> (r: String)
    ensures
        r@ == audit_path(instance_id@),
{
    let mut r = "audit/".to_string();
    r.append(safe_segment(instance_id).as_str());
    r.append(".jsonl");
    r
}

/// What is to be done to put a line into an audit log.
#[derive(Debug, PartialEq, Eq)]
pub struct AuditAppend {
    /// The log.
    pub file: String,
    /// Where the log is moved first, in place of what is there.
    pub rotate_to: Option<String>,
    /// What is appended.
    pub bytes: Vec<u8>,
}

/// How a line is put into an instance's audit log, of which the present size is given: a log of
/// 16 MiB or more is set aside first.
pub fn append_audit(instance_id: &str, size: Option<u64>, line: &[u8]) -> (r: AuditAppend)
    ensures
        r.file@ == audit_path(instance_id@),
        r.rotate_to is Some <==> (size matches Some(bytes) && bytes >= AUDIT_ROTATION_BYTES),
        r.rotate_to matches Some(path) ==> path@ == audit_path(instance_id@) + ".1"@,
        r.bytes@ == line@.push(10),
{
    let file = audit_file(instance_id);
    let full: bool = match size {
        Some(bytes) => bytes >= AUDIT_ROTATION_BYTES,
        None => false,
    };
    let rotate_to: Option<String> = if full {
        let mut path = file.clone();
        path.append(".1");
        Some(path)
    } else {
        None
    };
    let mut bytes: Vec<u8> = Vec::new();
    push_all(&mut bytes, line);
    bytes.push(10);
    assert(bytes@ == line@.push(10));
    AuditAppend { file, rotate_to, bytes }
}

/// Every character that is kept may stand in a file name.
proof fn lemma_kept(value: Seq<char>)
    ensures
        all_key_chars(kept(value)),
        all_key_chars(value) ==> kept(value) == value,
    decreases value.len(),
{
    reveal(Seq::filter);
    if value.len() > 0 {
        lemma_kept(value.drop_last());
        assert(all_key_chars(value) ==> all_key_chars(value.drop_last()));
        assert(all_key_chars(value) ==> is_key_char(value.last()));
        assert(value.drop_last().push(value.last()) == value);
        assert(kept(value) == if is_key_char(value.last()) {
            kept(value.drop_last()).push(value.last())
        } else {
            kept(value.drop_last())
        });
    }
}

/// A file name made from any text has 1 to 128 characters, none of them a separator or a dot, so
/// it names a file in the directory where it is used and no other.
pub proof fn law_safe_name_is_safe(value: Seq<char>)
    ensures
        1 <= safe_name(value).len() <= 128,
        all_key_chars(safe_name(value)),
        !safe_name(value).contains('/'),
        !safe_name(value).contains('\\'),
        !safe_name(value).contains('.'),
{
    lemma_kept(value);
    reveal_strlit("unknown");
    assert(all_key_chars(safe_name(value)));
    assert forall|c: char| #[trigger] safe_name(value).contains(c) implies is_key_char(c) by {
        let i = safe_name(value).index_of(c);
        assert(is_key_char(safe_name(value)[i]));
    }
}

/// A text of 1 to 128 characters that may all stand in a file name is its own file name; so is
/// the key of a tunnel, and what is already a file name stays as it is.
pub proof fn law_safe_name_keeps_safe_texts(value: Seq<char>)
    ensures
        1 <= value.len() <= 128 && all_key_chars(value) ==> safe_name(value) == value,
        safe_name(safe_name(value)) == safe_name(value),
{
    lemma_kept(value);
    lemma_kept(safe_name(value));
    law_safe_name_is_safe(value);
}

/// The digits of a name are all such as a file name may hold.
proof fn lemma_hexadecimal(number: nat, width: nat)
    ensures
        hexadecimal(number, width).len() == width,
        all_key_chars(hexadecimal(number, width)),
    decreases width,
{
    if width > 0 {
        lemma_hexadecimal(number / 16, (width - 1) as nat);
        assert(is_key_char(hex_digit(number % 16)));
    }
}

/// Sixteen to a power.
spec fn power(width: nat) -> nat
    decreases width,
{
    if width == 0 {
        1
    } else {
        16 * power((width - 1) as nat)
    }
}

/// Numbers that fit are told apart by their digits.
proof fn lemma_hexadecimal_tells_apart(a: nat, b: nat, width: nat)
    requires
        a < power(width),
        b < power(width),
        hexadecimal(a, width) == hexadecimal(b, width),
    ensures
        a == b,
    decreases width,
{
    if width > 0 {
        let w = (width - 1) as nat;
        assert(hexadecimal(a, width).drop_last() == hexadecimal(a / 16, w));
        assert(hexadecimal(b, width).drop_last() == hexadecimal(b / 16, w));
        assert(hexadecimal(a, width).last() == hex_digit(a % 16));
        assert(hexadecimal(b, width).last() == hex_digit(b % 16));
        lemma_hexadecimal_tells_apart(a / 16, b / 16, w);
    }
}

/// The name of a connection has sixteen characters that a file name may hold, and connections with
/// different numbers have different names.
pub proof fn law_connection_names(a: u64, b: u64)
    ensures
        hexadecimal(a as nat, 16).len() == 16,
        all_key_chars(hexadecimal(a as nat, 16)),
        hexadecimal(a as nat, 16) == hexadecimal(b as nat, 16) ==> a == b,
{
    lemma_hexadecimal(a as nat, 16);
    reveal_with_fuel(power, 17);
    if hexadecimal(a as nat, 16) == hexadecimal(b as nat, 16) {
        lemma_hexadecimal_tells_apart(a as nat, b as nat, 16);
    }
}

/// A character that may not stand in a file name is left out, wherever it stands: all but the
/// letters, digits, hyphens and underscores of ASCII.
pub proof fn law_unsafe_characters_are_left_out(before: Seq<char>, c: char, after: Seq<char>)
    requires
        !is_letter_digit_hyphen_or_underscore(c),
    ensures
        safe_name(before.push(c) + after) == safe_name(before + after),
{
    let keep = |c: char| is_key_char(c);
    assert(!is_key_char(c));
    Seq::filter_distributes_over_add(before.push(c), after, keep);
    Seq::filter_distributes_over_add(before, after, keep);
    reveal(Seq::filter);
    assert(before.push(c).drop_last() == before);
    assert(before.push(c).last() == c);
    assert(kept(before.push(c)) == kept(before));
    assert(kept(before.push(c) + after) == kept(before + after));
}

/// A text of letters, digits, hyphens and underscores is its own file name; of one with more than
/// 128 of them the first 128 are, and the word `unknown` is where there is none at all.
pub proof fn law_safe_characters_are_kept(value: Seq<char>)
    requires
        forall|i: int|
            0 <= i < value.len() ==> is_letter_digit_hyphen_or_underscore(#[trigger] value[i]),
    ensures
        value.len() == 0 ==> safe_name(value) == "unknown"@,
        1 <= value.len() <= 128 ==> safe_name(value) == value,
        value.len() > 128 ==> safe_name(value) == value.take(128),
{
    law_valid_key(value);
    lemma_kept(value);
    assert(kept(value) == value);
}

/// The file of a capture stands in the directory of its instance, under the name of its connection
/// with the extension `pcap`, whatever the instance.
pub proof fn law_file_of_a_capture(instance: Seq<char>, connection: Seq<char>)
    requires
        !connection.contains('/'),
    ensures
        capture_path(instance, connection) == "captures/"@ + safe_name(instance) + "/"@ + connection
            + ".pcap"@,
        final_name(capture_path(instance, connection)) == connection + ".pcap"@,
        directory_of(capture_path(instance, connection)) == "captures/"@ + safe_name(instance),
{
    let path = capture_path(instance, connection);
    let directory = "captures/"@ + safe_name(instance);
    let name = connection + ".pcap"@;
    reveal_strlit("captures/");
    reveal_strlit("/");
    reveal_strlit(".pcap");
    assert(!name.contains('/')) by {
        if name.contains('/') {
            let i = name.index_of('/');
            if i < connection.len() {
                assert(connection[i] == '/');
                assert(connection.contains('/'));
            } else {
                assert(name[i] == ".pcap"@[i - connection.len()]);
            }
        }
    }
    assert(path =~= directory.push('/') + name);
    law_last_occurrence(directory, '/', name);
    assert(path.skip(directory.len() as int + 1) == name);
    assert(path.take(directory.len() as int) == directory);
    law_safe_name_is_safe(instance);
}

/// The audit log of an instance stands in the directory for audit logs, under the name of the
/// instance with the extension `jsonl`; instances with different file names have different logs.
pub proof fn law_file_of_an_audit_log(instance: Seq<char>, other: Seq<char>)
    ensures
        final_name(audit_path(instance)) == safe_name(instance) + ".jsonl"@,
        directory_of(audit_path(instance)) == "audit"@,
        audit_path(instance) == audit_path(other) ==> safe_name(instance) == safe_name(other),
{
    let path = audit_path(instance);
    let name = safe_name(instance) + ".jsonl"@;
    reveal_strlit("audit/");
    reveal_strlit("audit");
    reveal_strlit(".jsonl");
    law_safe_name_is_safe(instance);
    assert(!name.contains('/')) by {
        if name.contains('/') {
            let i = name.index_of('/');
            if i < safe_name(instance).len() {
                assert(safe_name(instance)[i] == '/');
                assert(safe_name(instance).contains('/'));
            } else {
                assert(name[i] == ".jsonl"@[i - safe_name(instance).len()]);
            }
        }
    }
    assert("audit/"@ == ("audit"@).push('/'));
    assert(path =~= ("audit"@).push('/') + name);
    law_last_occurrence("audit"@, '/', name);
    assert(path.skip(6) == name);
    assert(path.take(5) == "audit"@);
    if path == audit_path(other) {
        let n = path.len() - 6;
        assert(path.subrange(6, n) == safe_name(instance));
        assert(audit_path(other).subrange(6, n) == safe_name(other));
    }
}

/// Captures are kept below the directory for variable data where nothing else is said.
pub proof fn law_standard_capture_root()
    ensures
        standard_capture_root() == "/var/lib/labstreamgate"@,
{
}

/// The cleanup finds every capture that the gateway writes: whatever the instance and the number of
/// the connection, the file of the capture has the name of a capture.
pub proof fn law_cleanup_finds_every_capture(instance: Seq<char>, number: u64)
    ensures
        has_pcap_extension(
            encode_utf8(final_name(capture_path(instance, hexadecimal(number as nat, 16)))),
        ),
{
    let id = hexadecimal(number as nat, 16);
    let name = id + ".pcap"@;
    reveal_strlit(".pcap");
    law_connection_names(number, number);
    law_valid_key(id);
    assert(!id.contains('/')) by {
        if id.contains('/') {
            assert(is_letter_digit_hyphen_or_underscore(id[id.index_of('/')]));
        }
    }
    law_file_of_a_capture(instance, id);
    assert forall|i: int| 0 <= i < name.len() implies '\0' <= #[trigger] name[i] <= '\u{7f}' by {
        if i < 16 {
            assert(name[i] == id[i]);
            assert(is_letter_digit_hyphen_or_underscore(id[i]));
        } else {
            assert(name[i] == ".pcap"@[i - 16]);
        }
    }
    assert(is_ascii_chars(name));
    is_ascii_chars_encode_utf8(name);
    let bytes = encode_utf8(name);
    assert(bytes.len() == 21);
    assert(name[16] == '.' && name[17] == 'p' && name[18] == 'c' && name[19] == 'a' && name[20]
        == 'p');
    assert(bytes =~= bytes.take(16) + seq![46u8, 112, 99, 97, 112]) by {
        assert(bytes[16] == name[16] as u8);
        assert(bytes[17] == name[17] as u8);
        assert(bytes[18] == name[18] as u8);
        assert(bytes[19] == name[19] as u8);
        assert(bytes[20] == name[20] as u8);
    }
    law_names_of_captures(bytes.take(16), bytes);
}

/// An audit log is set aside from sixteen mebibytes on.
pub proof fn law_size_of_a_full_log()
    ensures
        AUDIT_ROTATION_BYTES == 16 * 1024 * 1024,
{
}

} // verus!
