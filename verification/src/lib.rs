//! Construction of raw network frames: Ethernet, IPv4, and TCP or UDP
//! headers around a caller-supplied payload, with both checksums computed,
//! plus the parsers for the addressing parameters the builder takes.

use vstd::prelude::*;

pub mod checksum;
pub mod encoding;
pub mod packet;
pub mod parsing;

verus! {

/// Layer 4 (transport layer) protocol options for packet construction.
#[derive(Clone, Copy, Debug, PartialEq, Eq, Structural)]
pub enum L4Protocol {
    /// Transmission Control Protocol - connection-oriented, reliable
    Tcp,
    /// User Datagram Protocol - connectionless, best-effort delivery
    Udp,
}

/// Output format for debug files.
#[derive(Clone, Copy, Debug, PartialEq, Eq, Structural)]
pub enum DebugFormat {
    /// JSON format with packet metadata and hex-encoded data
    Json,
    /// PCAP format readable by Wireshark/tshark
    Pcap,
}

/// Error raised when the debug-output arguments are inconsistent.
#[derive(Clone, Copy, Debug, PartialEq, Eq, Structural)]
pub enum ValidateError {
    /// A debug file and format were both given, but the file's extension
    /// is not the one the format expects.
    ExtensionMismatch,
    /// A debug file and format were both given, but the file has no
    /// extension at all.
    MissingExtension,
    /// A debug format was given without a debug file.
    FormatWithoutFile,
    /// A debug file was given without a debug format.
    FileWithoutFormat,
}

/// The characters of the path's last component, after the last `/`
/// (empty when the path ends in `/`).
pub open spec fn spec_tail_component(p: Seq<char>) -> Seq<char>
    decreases p.len(),
{
    if p.len() == 0 || p.last() == '/' {
        Seq::empty()
    } else {
        spec_tail_component(p.drop_last()).push(p.last())
    }
}

/// The file name the path denotes: its last real component, ignoring
/// trailing slashes and `.` components; none for an empty path, a path of
/// separators and `.` components only, or a path ending in `..`.
pub open spec fn spec_file_name(p: Seq<char>) -> Option<Seq<char>>
    decreases p.len(),
{
    if p.len() == 0 {
        None
    } else if p.last() == '/' {
        spec_file_name(p.drop_last())
    } else {
        let c = spec_tail_component(p);
        if c.len() == 1 && c[0] == '.' {
            spec_file_name(p.take(p.len() - 1))
        } else if c.len() == 2 && c[0] == '.' && c[1] == '.' {
            None
        } else {
            Some(c)
        }
    }
}

/// Index of the last `.` in the file name, -1 when there is none.
pub open spec fn spec_rfind_dot(f: Seq<char>) -> int
    decreases f.len(),
{
    if f.len() == 0 {
        -1
    } else if f.last() == '.' {
        f.len() - 1
    } else {
        spec_rfind_dot(f.drop_last())
    }
}

/// The path's extension: what follows the last `.` of its file name. A
/// file name without a dot, or whose only dot starts it (a hidden file),
/// has no extension; a name ending in `.` has an empty one.
pub open spec fn spec_extension(p: Seq<char>) -> Option<Seq<char>> {
    match spec_file_name(p) {
        Option::None => Option::None,
        Option::Some(f) => {
            let i = spec_rfind_dot(f);
            if i <= 0 {
                Option::None
            } else {
                Option::Some(f.skip(i + 1))
            }
        },
    }
}

/// `c` with an ASCII capital letter folded to lower case.
pub open spec fn spec_lower_char(c: char) -> char {
    if 65 <= c as int <= 90 {
        ((c as int) + 32) as char
    } else {
        c
    }
}

/// The characters with every ASCII capital letter folded to lower case.
pub open spec fn spec_ascii_lower(s: Seq<char>) -> Seq<char> {
    s.map_values(|c: char| spec_lower_char(c))
}

/// The file extension each debug format expects.
pub open spec fn spec_expected_extension(fmt: DebugFormat) -> Seq<char> {
    match fmt {
        DebugFormat::Json => seq!['j', 's', 'o', 'n'],
        DebugFormat::Pcap => seq!['p', 'c', 'a', 'p'],
    }
}

/// What validation of the debug-output arguments returns: both or neither
/// of file and format must be given, and the file's extension, lower-cased,
/// must be the one the format expects.
pub open spec fn spec_validate(a: Args) -> Result<(), ValidateError> {
    match (a.debug_format, a.debug_file) {
        (Option::Some(fmt), Option::Some(f)) => match spec_extension(f@) {
            Option::Some(ext) => if spec_ascii_lower(ext) == spec_expected_extension(fmt) {
                Result::Ok(())
            } else {
                Result::Err(ValidateError::ExtensionMismatch)
            },
            Option::None => Result::Err(ValidateError::MissingExtension),
        },
        (Option::None, Option::None) => Result::Ok(()),
        (Option::Some(_), Option::None) => Result::Err(ValidateError::FormatWithoutFile),
        (Option::None, Option::Some(_)) => Result::Err(ValidateError::FileWithoutFormat),
    }
}

/// Once slashes and `.` components up to `m` are ruled out, the tail
/// component of the path is exactly its suffix from `m` on.
proof fn lemma_tail_component_at(s: Seq<char>, m: int)
    requires
        0 <= m <= s.len(),
        forall|t: int| m <= t < s.len() ==> s[t] != '/',
        m == 0 || s[m - 1] == '/',
    ensures
        spec_tail_component(s) == s.skip(m),
    decreases s.len(),
{
    if m == s.len() {
        assert(s.skip(m) =~= Seq::<char>::empty());
    } else {
        let sd = s.drop_last();
        lemma_tail_component_at(sd, m);
        assert(sd.skip(m).push(s.last()) =~= s.skip(m));
    }
}

/// A dot at `i` with none after it is the last dot; `i == -1` says there
/// is none at all.
proof fn lemma_rfind_dot_at(f: Seq<char>, i: int)
    requires
        -1 <= i < f.len(),
        i >= 0 ==> f[i] == '.',
        forall|t: int| i < t < f.len() ==> f[t] != '.',
    ensures
        spec_rfind_dot(f) == i,
    decreases f.len(),
{
    if f.len() == 0 {
    } else if f.last() == '.' {
        assert(i == f.len() - 1);
    } else {
        let fd = f.drop_last();
        assert(i < f.len() - 1);
        lemma_rfind_dot_at(fd, i);
    }
}

/// Finds the file name the path's characters denote, as a range into
/// `chars`: trailing slashes and `.` components are ignored, and a path
/// without a real last component, or ending in `..`, has none.
fn file_name_range(chars: &Vec<char>) -> (r: Option<(usize, usize)>)
    ensures
        match r {
            Some(se) => se.0 <= se.1 <= chars@.len() && spec_file_name(chars@) == Some(
                chars@.subrange(se.0 as int, se.1 as int),
            ),
            None => spec_file_name(chars@) is None,
        },
{
    let n = chars.len();
    let mut end = n;
    proof {
        assert(chars@.take(n as int) =~= chars@);
    }
    loop
        invariant
            n == chars@.len(),
            end <= n,
            spec_file_name(chars@) == spec_file_name(chars@.take(end as int)),
        decreases end,
    {
        if end == 0 {
            proof {
                assert(chars@.take(0).len() == 0);
            }
            return None;
        }
        if chars[end - 1] == '/' {
            proof {
                assert(chars@.take(end as int).last() == chars@[end - 1]);
                assert(chars@.take(end as int).drop_last() =~= chars@.take(end - 1));
            }
            end = end - 1;
            continue ;
        }
        let mut start = end;
        while start > 0 && chars[start - 1] != '/'
            invariant
                n == chars@.len(),
                start <= end <= n,
                forall|t: int| start <= t < end ==> chars@[t] != '/',
            decreases start,
        {
            start = start - 1;
        }
        proof {
            let p = chars@.take(end as int);
            assert forall|t: int| start <= t < p.len() implies p[t] != '/' by {
                assert(p[t] == chars@[t]);
            }
            lemma_tail_component_at(p, start as int);
            assert(p.skip(start as int) =~= chars@.subrange(start as int, end as int));
            assert(p.last() == chars@[end - 1]);
        }
        let len = end - start;
        if len == 1 && chars[start] == '.' {
            proof {
                let p = chars@.take(end as int);
                assert(p.take(p.len() - 1) =~= chars@.take(end - 1));
            }
            end = end - 1;
            continue ;
        }
        if len == 2 && chars[start] == '.' && chars[start + 1] == '.' {
            return None;
        }
        return Some((start, end));
    }
}

/// Finds the path's extension, as the characters after the last dot of
/// its file name.
fn extension_chars(chars: &Vec<char>) -> (r: Option<Vec<char>>)
    ensures
        match r {
            Some(e) => spec_extension(chars@) == Some(e@),
            None => spec_extension(chars@) is None,
        },
{
    match file_name_range(chars) {
        None => None,
        Some(se) => {
            let (start, end) = se;
            let ghost f = chars@.subrange(start as int, end as int);
            let mut j = end;
            while j > start && chars[j - 1] != '.'
                invariant
                    start <= j <= end <= chars@.len(),
                    forall|t: int| j <= t < end ==> chars@[t] != '.',
                decreases j,
            {
                j = j - 1;
            }
            proof {
                assert forall|t: int| (j - start) - 1 < t < f.len() implies f[t] != '.' by {
                    assert(f[t] == chars@[start + t]);
                }
            }
            if j == start {
                proof {
                    lemma_rfind_dot_at(f, -1);
                }
                return None;
            }
            proof {
                assert(f[j - start - 1] == chars@[j - 1]);
                lemma_rfind_dot_at(f, j - start - 1);
            }
            if j - start == 1 {
                return None;
            }
            let mut ext: Vec<char> = Vec::new();
            let mut t = j;
            while t < end
                invariant
                    j <= t <= end <= chars@.len(),
                    ext@ == chars@.subrange(j as int, t as int),
                decreases end - t,
            {
                ext.push(chars[t]);
                proof {
                    assert(ext@ =~= chars@.subrange(j as int, t + 1));
                }
                t = t + 1;
            }
            proof {
                assert(f.skip(j - start) =~= chars@.subrange(j as int, end as int));
            }
            Some(ext)
        },
    }
}

/// Folds one character to lower case, ASCII capitals only.
fn lower_char(c: char) -> (r: char)
    ensures
        r == spec_lower_char(c),
{
    let cv = c as u32;
    if 65 <= cv && cv <= 90 {
        ((c as u8) + 32) as char
    } else {
        c
    }
}

/// Folds the characters to lower case, ASCII capitals only.
fn to_lower_chars(v: &Vec<char>) -> (r: Vec<char>)
    ensures
        r@ == spec_ascii_lower(v@),
{
    let n = v.len();
    let mut out: Vec<char> = Vec::new();
    let mut i: usize = 0;
    while i < n
        invariant
            n == v@.len(),
            i <= n,
            out@ == spec_ascii_lower(v@.take(i as int)),
        decreases n - i,
    {
        out.push(lower_char(v[i]));
        proof {
            assert(out@ =~= spec_ascii_lower(v@.take(i + 1)));
        }
        i = i + 1;
    }
    proof {
        assert(v@.take(n as int) =~= v@);
    }
    out
}

/// Whether two character vectors hold the same characters.
fn char_vecs_equal(a: &Vec<char>, b: &Vec<char>) -> (r: bool)
    ensures
        r == (a@ == b@),
{
    if a.len() != b.len() {
        return false;
    }
    let n = a.len();
    let mut i: usize = 0;
    while i < n
        invariant
            n == a@.len() == b@.len(),
            i <= n,
            forall|j: int| 0 <= j < i ==> a@[j] == b@[j],
        decreases n - i,
    {
        if a[i] != b[i] {
            return false;
        }
        i = i + 1;
    }
    proof {
        assert(a@ =~= b@);
    }
    true
}

/// The full set of parameters the tool runs from: addressing for the frame
/// builder, plus the debug-output choices checked by [`Args::validate`].
pub struct Args {
    /// Source IPv4 address to place in the IP header, as its four octets.
    pub src_ip: [u8; 4],
    /// Destination IPv4 address to place in the IP header, as its four octets.
    pub dst_ip: [u8; 4],
    /// Destination port number for Layer 4 (TCP/UDP).
    pub dest_port: u16,
    /// Source MAC address to use at the Ethernet layer.
    pub src_mac: [u8; 6],
    /// Destination MAC address to use at the Ethernet layer.
    pub dst_mac: [u8; 6],
    /// Layer 4 protocol to use for the probe (TCP or UDP).
    pub l4_protocol: L4Protocol,
    /// Timeout in milliseconds between probe/retry attempts.
    pub timeout_ms: u64,
    /// Path to file where debug output will be written.
    pub debug_file: Option<String>,
    /// Format for debug output file (json or pcap).
    pub debug_format: Option<DebugFormat>,
    /// Raw 8-bit value placed into the IPv4 header flags/fragment bitfield.
    pub ip_bitfield: u8,
}

impl Args {
    /// Validates the consistency of the debug-output arguments: a debug
    /// file and a debug format come together or not at all, and the
    /// file's extension, lower-cased, must match the format.
    pub fn validate(&self) -> (r: Result<(), ValidateError>)
        ensures
            r == spec_validate(*self),
    {
        match (&self.debug_format, &self.debug_file) {
            (Some(fmt), Some(f)) => {
                let chars = crate::parsing::collect_chars(f.as_str());
                match extension_chars(&chars) {
                    None => Err(ValidateError::MissingExtension),
                    Some(ext) => {
                        let lower = to_lower_chars(&ext);
                        let mut expected: Vec<char> = Vec::new();
                        match fmt {
                            DebugFormat::Json => {
                                expected.push('j');
                                expected.push('s');
                                expected.push('o');
                                expected.push('n');
                            },
                            DebugFormat::Pcap => {
                                expected.push('p');
                                expected.push('c');
                                expected.push('a');
                                expected.push('p');
                            },
                        }
                        proof {
                            assert(expected@ =~= spec_expected_extension(*fmt));
                        }
                        if char_vecs_equal(&lower, &expected) {
                            Ok(())
                        } else {
                            Err(ValidateError::ExtensionMismatch)
                        }
                    },
                }
            },
            (None, None) => Ok(()),
            (Some(_), None) => Err(ValidateError::FormatWithoutFile),
            (None, Some(_)) => Err(ValidateError::FileWithoutFormat),
        }
    }
}

} // verus!
