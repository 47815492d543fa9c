//! Plain-text statistics and the hand-written extractors: counting lines,
//! words and characters of a text, pulling visible text out of RTF markup,
//! and harvesting printable runs from arbitrary binary data.  Reading and
//! decoding document files is a caller's concern.

use vstd::prelude::*;
use vstd::string::StringSliceAdditionalSpecFns;
use vstd::string::StringExecFns;
use vstd::utf8::encode_utf8;
use crate::strutil::{matches_at, prefix_at};

verus! {

/// Marker type for the text parser.
pub struct TextParser;

/// Failure of a document read.
#[derive(Debug)]
pub enum TextParserError {
    IO(String),
    Pdf(String),
    Docx(String),
    Unsupported(String),
}

/// An ASCII whitespace byte: space, tab, line feed, vertical tab, form
/// feed or carriage return.
pub open spec fn is_ws(b: u8) -> bool {
    b == 32 || b == 9 || b == 10 || b == 11 || b == 12 || b == 13
}

/// The number of line feeds among the first `n` bytes.
pub open spec fn nl_count(s: Seq<u8>, n: nat) -> nat
    decreases n,
{
    if n == 0 || n > s.len() {
        0
    } else {
        nl_count(s, (n - 1) as nat) + if s[n - 1] == 10 {
            1nat
        } else {
            0nat
        }
    }
}

/// The number of lines: line feeds plus an unterminated last line.
pub open spec fn spec_line_count(s: Seq<u8>) -> nat {
    if s.len() == 0 {
        0
    } else if s[s.len() - 1] == 10 {
        nl_count(s, s.len())
    } else {
        nl_count(s, s.len()) + 1
    }
}

/// The number of character starts among the first `n` bytes: every byte
/// that is not a UTF-8 continuation byte.
pub open spec fn char_start_count(s: Seq<u8>, n: nat) -> nat
    decreases n,
{
    if n == 0 || n > s.len() {
        0
    } else {
        char_start_count(s, (n - 1) as nat) + if 128 <= s[n - 1] < 192 {
            0nat
        } else {
            1nat
        }
    }
}

/// The number of maximal non-whitespace runs among the first `n` bytes,
/// splitting at ASCII whitespace.
pub open spec fn word_count(s: Seq<u8>, n: nat) -> nat
    decreases n,
{
    if n == 0 || n > s.len() {
        0
    } else {
        word_count(s, (n - 1) as nat) + if !is_ws(s[n - 1]) && (n == 1 || is_ws(s[n - 2])) {
            1nat
        } else {
            0nat
        }
    }
}

/// A text with its size statistics.
#[derive(Debug, Clone)]
pub struct TextContent {
    pub content: String,
    pub byte_size: usize,
    pub line_count: usize,
    pub char_count: usize,
    pub word_count: usize,
    pub file_type: String,
}

impl TextContent {
    /// Wrap a text and compute its statistics: bytes, lines split at line
    /// feeds, character starts, and words split at ASCII whitespace.
    pub fn new(content: String, file_type: String) -> (r: TextContent)
        ensures
            r.content@ == content@,
            r.file_type@ == file_type@,
            r.byte_size == encode_utf8(content@).len(),
            r.line_count == spec_line_count(encode_utf8(content@)),
            r.char_count == char_start_count(encode_utf8(content@), encode_utf8(content@).len()),
            r.word_count == word_count(encode_utf8(content@), encode_utf8(content@).len()),
    {
        let bytes: &[u8] = content.as_str().as_bytes();
        let n: usize = bytes.len();
        let mut nls: usize = 0;
        let mut chars: usize = 0;
        let mut words: usize = 0;
        let mut i: usize = 0;
        while i < n
            invariant
                i <= n == bytes@.len(),
                bytes@ == encode_utf8(content@),
                nls == nl_count(bytes@, i as nat),
                chars == char_start_count(bytes@, i as nat),
                words == word_count(bytes@, i as nat),
                nls <= i && chars <= i && words <= i,
            decreases n - i,
        {
            let b: u8 = bytes[i];
            if b == 10 {
                nls = nls + 1;
            }
            if !(128 <= b && b < 192) {
                chars = chars + 1;
            }
            let ws: bool = b == 32 || b == 9 || b == 10 || b == 11 || b == 12 || b == 13;
            if !ws {
                let prev_ws: bool = if i == 0 {
                    true
                } else {
                    let p: u8 = bytes[i - 1];
                    p == 32 || p == 9 || p == 10 || p == 11 || p == 12 || p == 13
                };
                if prev_ws {
                    words = words + 1;
                }
            }
            proof {
                lemma_counts_le(bytes@, i as nat);
            }
            i = i + 1;
        }
        let line_count: usize = if n == 0 {
            0
        } else if bytes[n - 1] == 10 {
            nls
        } else {
            proof {
                lemma_counts_le(bytes@, (n - 1) as nat);
                assert(nl_count(bytes@, n as nat) == nl_count(bytes@, (n - 1) as nat));
            }
            nls + 1
        };
        TextContent {
            byte_size: n,
            line_count,
            char_count: chars,
            word_count: words,
            content,
            file_type,
        }
    }

    /// Relies on str::lines: the text split at line feeds, a trailing line
    /// ending producing no extra line.
    #[verifier::external_body]
    pub fn lines(&self) -> (r: Vec<String>)
        ensures
            r@.len() == spec_line_count(encode_utf8(self.content@)),
    {
        self.content.lines().map(|l| l.to_string()).collect()
    }

    /// Relies on str::split_whitespace: the text split at Unicode
    /// whitespace runs.
    #[verifier::external_body]
    pub fn words(&self) -> (r: Vec<String>)
    {
        self.content.split_whitespace().map(|w| w.to_string()).collect()
    }
}

proof fn lemma_counts_le(s: Seq<u8>, n: nat)
    ensures
        nl_count(s, n) <= n,
        char_start_count(s, n) <= n,
        word_count(s, n) <= n,
    decreases n,
{
    if n > 0 && n <= s.len() {
        lemma_counts_le(s, (n - 1) as nat);
    }
}

// ---------------------------------------------------------------------------
// RTF plain-text extraction
// ---------------------------------------------------------------------------

/// An ASCII hexadecimal digit.
pub open spec fn is_hex_byte(b: u8) -> bool {
    (48 <= b <= 57) || (65 <= b <= 70) || (97 <= b <= 102)
}

/// The byte after `{` opens a group whose whole content is skipped: a font
/// or color table or the info group.
pub open spec fn opens_skip_group(s: Seq<u8>, j: int) -> bool {
    ||| matches_at(s, j, "\\fonttbl".spec_bytes())
    ||| matches_at(s, j, "\\colortbl".spec_bytes())
    ||| matches_at(s, j, "\\info".spec_bytes())
}

/// The bytes the RTF machine keeps from position `i` on, in state
/// (`depth`, `skip`, `icw`, `ihex`): group depth, skipped group, inside a
/// control word, and after a hex escape.
pub open spec fn rtf_extract(
    s: Seq<u8>,
    i: int,
    depth: int,
    skip: bool,
    icw: bool,
    ihex: bool,
) -> Seq<u8>
    decreases s.len() - i,
        when 0 <= i
{
    if i >= s.len() {
        Seq::empty()
    } else {
        let b = s[i];
        if b == 0x7b {
            rtf_extract(s, i + 1, depth + 1, skip || opens_skip_group(s, i + 1), icw, ihex)
        } else if b == 0x7d {
            rtf_extract(s, i + 1, depth - 1, if depth - 1 == 0 {
                false
            } else {
                skip
            }, false, ihex)
        } else if b == 0x5c {
            if skip {
                rtf_extract(s, i + 1, depth, skip, icw, ihex)
            } else if i + 1 < s.len() && (s[i + 1] == 0x5c || s[i + 1] == 0x7b || s[i + 1]
                == 0x7d) {
                seq![s[i + 1]] + rtf_extract(s, i + 2, depth, skip, false, ihex)
            } else if i + 1 < s.len() && s[i + 1] == 0x27 {
                rtf_extract(s, i + 2, depth, skip, false, true)
            } else {
                rtf_extract(s, i + 1, depth, skip, true, ihex)
            }
        } else if (b == 32 || b == 10 || b == 13) && icw {
            rtf_extract(s, i + 1, depth, skip, false, ihex)
        } else if ihex {
            if is_hex_byte(b) && i + 1 < s.len() && is_hex_byte(s[i + 1]) {
                rtf_extract(s, i + 2, depth, skip, icw, false)
            } else {
                rtf_extract(s, i + 1, depth, skip, icw, false)
            }
        } else if !icw && !skip && depth > 0 {
            seq![b] + rtf_extract(s, i + 1, depth, skip, icw, ihex)
        } else {
            rtf_extract(s, i + 1, depth, skip, icw, ihex)
        }
    }
}

/// The visible text bytes of an RTF document: control words, group markers
/// and skipped groups removed, escaped braces and backslashes kept.
pub fn extract_rtf_bytes(rtf: &[u8]) -> (r: Vec<u8>)
    ensures
        r@ == rtf_extract(rtf@, 0, 0, false, false, false),
{
    let n: usize = rtf.len();
    let mut out: Vec<u8> = Vec::new();
    let mut i: usize = 0;
    let mut depth: i128 = 0;
    let mut skip: bool = false;
    let mut icw: bool = false;
    let mut ihex: bool = false;
    let ghost full: Seq<u8> = rtf_extract(rtf@, 0, 0, false, false, false);
    while i < n
        invariant
            i <= n == rtf@.len(),
            -(i as int) <= depth <= i as int,
            full == out@ + rtf_extract(rtf@, i as int, depth as int, skip, icw, ihex),
        decreases n - i,
    {
        let b: u8 = rtf[i];
        if b == 0x7b {
            let opens: bool = prefix_at(rtf, i + 1, "\\fonttbl".as_bytes()) || prefix_at(
                rtf,
                i + 1,
                "\\colortbl".as_bytes(),
            ) || prefix_at(rtf, i + 1, "\\info".as_bytes());
            proof {
                assert(opens == opens_skip_group(rtf@, i as int + 1));
            }
            skip = skip || opens;
            depth = depth + 1;
            i = i + 1;
        } else if b == 0x7d {
            depth = depth - 1;
            if depth == 0 {
                skip = false;
            }
            icw = false;
            i = i + 1;
        } else if b == 0x5c {
            if skip {
                i = i + 1;
            } else if i + 1 < n && (rtf[i + 1] == 0x5c || rtf[i + 1] == 0x7b || rtf[i + 1]
                == 0x7d) {
                out.push(rtf[i + 1]);
                icw = false;
                i = i + 2;
            } else if i + 1 < n && rtf[i + 1] == 0x27 {
                icw = false;
                ihex = true;
                i = i + 2;
            } else {
                icw = true;
                i = i + 1;
            }
        } else if (b == 32 || b == 10 || b == 13) && icw {
            icw = false;
            i = i + 1;
        } else if ihex {
            let h: bool = (48 <= b && b <= 57) || (65 <= b && b <= 70) || (97 <= b && b <= 102);
            if h && i + 1 < n {
                let b2: u8 = rtf[i + 1];
                let h2: bool = (48 <= b2 && b2 <= 57) || (65 <= b2 && b2 <= 70) || (97 <= b2 && b2
                    <= 102);
                if h2 {
                    i = i + 2;
                } else {
                    i = i + 1;
                }
            } else {
                i = i + 1;
            }
            ihex = false;
        } else if !icw && !skip && depth > 0 {
            out.push(b);
            i = i + 1;
        } else {
            i = i + 1;
        }
    }
    proof {
        assert(rtf_extract(rtf@, i as int, depth as int, skip, icw, ihex) =~= Seq::empty());
        assert(full =~= out@);
    }
    out
}

/// Relies on String::from_utf8_lossy: bytes that already encode a text
/// come back as that text unchanged.
#[verifier::external_body]
fn bytes_to_string_lossy(b: Vec<u8>) -> (r: String)
    ensures
        (exists|cs: Seq<char>| encode_utf8(cs) == b@) ==> encode_utf8(r@) == b@,
{
    String::from_utf8_lossy(&b).into_owned()
}

/// Pull the visible text out of RTF markup.  The kept bytes are exactly
/// the machine's output; where they encode a text, the returned string is
/// that text.
pub fn extract_rtf_plain_text(rtf_content: &str) -> (r: String)
    ensures
        (exists|cs: Seq<char>|
            encode_utf8(cs) == rtf_extract(rtf_content.spec_bytes(), 0, 0, false, false, false))
            ==> encode_utf8(r@) == rtf_extract(
            rtf_content.spec_bytes(),
            0,
            0,
            false,
            false,
            false,
        ),
{
    let bytes: Vec<u8> = extract_rtf_bytes(rtf_content.as_bytes());
    bytes_to_string_lossy(bytes)
}

// ---------------------------------------------------------------------------
// Printable runs in binary data
// ---------------------------------------------------------------------------

/// A byte kept by the binary-string harvester: printable ASCII, tab, line
/// endings, or any high byte.
pub open spec fn keep_byte(b: u8) -> bool {
    (32 <= b <= 126) || b == 10 || b == 13 || b == 9 || b >= 128
}

/// The byte length a kept byte contributes once read as a character: high
/// bytes become two-byte characters.
pub open spec fn kept_width(b: u8) -> int {
    if b >= 128 {
        2
    } else {
        1
    }
}

/// The characters harvested from position `i` on, given the text gathered
/// so far, the current run and its byte length: runs longer than 3 bytes
/// are kept, each followed by a space, the final run without one.
pub open spec fn strings_from(
    s: Seq<u8>,
    i: int,
    acc: Seq<char>,
    cur: Seq<char>,
    cur_len: int,
) -> Seq<char>
    decreases s.len() - i,
        when 0 <= i
{
    if i >= s.len() {
        if cur_len > 3 {
            acc + cur
        } else {
            acc
        }
    } else {
        let b = s[i];
        if keep_byte(b) {
            strings_from(s, i + 1, acc, cur.push(b as char), cur_len + kept_width(b))
        } else {
            if cur_len > 3 {
                strings_from(s, i + 1, acc + cur + seq![' '], Seq::empty(), 0)
            } else {
                strings_from(s, i + 1, acc, Seq::empty(), 0)
            }
        }
    }
}

/// Relies on String::push: the character joins the end of the string.
#[verifier::external_body]
fn push_byte_char(s: &mut String, b: u8)
    ensures
        final(s)@ == old(s)@.push(b as char),
{
    s.push(b as char);
}

/// Harvest printable runs of more than three bytes from binary data,
/// separated by spaces.
pub fn extract_strings_from_binary(bytes: &[u8]) -> (r: String)
    requires
        bytes@.len() < 0x4000_0000_0000_0000,
    ensures
        r@ == strings_from(bytes@, 0, Seq::empty(), Seq::empty(), 0),
{
    let n: usize = bytes.len();
    let mut result: String = String::new();
    let mut current: String = String::new();
    let mut cur_len: u64 = 0;
    let mut i: usize = 0;
    let ghost full: Seq<char> = strings_from(bytes@, 0, Seq::empty(), Seq::empty(), 0);
    proof {
        assert(result@ =~= Seq::<char>::empty());
        assert(current@ =~= Seq::<char>::empty());
    }
    while i < n
        invariant
            i <= n == bytes@.len(),
            n < 0x4000_0000_0000_0000,
            cur_len <= 2 * (i as int),
            full == strings_from(bytes@, i as int, result@, current@, cur_len as int),
        decreases n - i,
    {
        let b: u8 = bytes[i];
        let keep: bool = (32 <= b && b <= 126) || b == 10 || b == 13 || b == 9 || b >= 128;
        if keep {
            push_byte_char(&mut current, b);
            if b >= 128 {
                cur_len = cur_len + 2;
            } else {
                cur_len = cur_len + 1;
            }
        } else {
            if cur_len > 3 {
                result.append(current.as_str());
                result.append(" ");
                proof {
                    reveal_strlit(" ");
                    assert(" "@ =~= seq![' ']);
                }
            }
            current = String::new();
            cur_len = 0;
            proof {
                assert(current@ =~= Seq::<char>::empty());
            }
        }
        proof {
            assert(cur_len <= 2 * (i + 1)) by (nonlinear_arith)
                requires
                    cur_len <= 2 * (i as int) + 2,
            ;
        }
        i = i + 1;
    }
    if cur_len > 3 {
        result.append(current.as_str());
    }
    result
}

} // verus!
