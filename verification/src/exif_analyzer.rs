//! Image-metadata suspicion checks: the length and encoding heuristics the
//! aggregator consumes.  Reading the raw metadata out of a file is a
//! caller's concern; the checks here work on plain tag/value strings.

use vstd::prelude::*;
use vstd::string::StringSliceAdditionalSpecFns;
use vstd::string::StringExecFns;
use std::collections::HashMap;
use crate::strutil::dec_chars;
use crate::strutil::usize_to_dec_string;
use crate::report::strs;

verus! {

/// Marker type for the image-metadata analyzer.
pub struct ExifAnalyzer;

/// Failure of a metadata read.
#[derive(Debug)]
pub enum ExifAnalyzerError {
    IO(String),
    ExifError(String),
}

/// The extracted metadata with its suspicion findings.
#[derive(Debug)]
pub struct ExifData {
    pub metadata: HashMap<String, String>,
    pub has_thumbnail: bool,
    pub thumbnail_size: Option<usize>,
    pub suspicious_fields: Vec<String>,
    pub comment_fields: Vec<String>,
}

impl ExifData {
    /// The empty record.
    pub fn new() -> (r: ExifData)
        ensures
            r.has_thumbnail == false,
            r.thumbnail_size is None,
            r.suspicious_fields@ == Seq::<String>::empty(),
            r.comment_fields@ == Seq::<String>::empty(),
    {
        ExifData {
            metadata: HashMap::new(),
            has_thumbnail: false,
            thumbnail_size: None,
            suspicious_fields: Vec::new(),
            comment_fields: Vec::new(),
        }
    }
}

impl Default for ExifData {
    /// The empty record.
    fn default() -> (r: Self)
        ensures
            r.has_thumbnail == false,
            r.thumbnail_size is None,
            r.suspicious_fields@ == Seq::<String>::empty(),
            r.comment_fields@ == Seq::<String>::empty(),
    {
        ExifData::new()
    }
}

/// A handle on a file whose metadata a caller will read and feed into the
/// suspicion checks.
#[derive(Debug, Clone)]
pub struct ExifAnalyzerWithPath {
    pub path: String,
}

impl ExifAnalyzerWithPath {
    /// Remember the file to analyze.
    pub fn new(path: String) -> (r: ExifAnalyzerWithPath)
        ensures
            r.path@ == path@,
    {
        ExifAnalyzerWithPath { path }
    }
}

/// A byte that can appear in base64 text: a letter, a digit, `+`, `/` or
/// `=`.
pub open spec fn is_b64_byte(b: u8) -> bool {
    ||| 48 <= b <= 57
    ||| 65 <= b <= 90
    ||| 97 <= b <= 122
    ||| b == 43
    ||| b == 47
    ||| b == 61
}

/// The number of base64 bytes among the first `n`.
pub open spec fn b64_count(s: Seq<u8>, n: nat) -> nat
    decreases n,
{
    if n == 0 || n > s.len() {
        0
    } else {
        b64_count(s, (n - 1) as nat) + if is_b64_byte(s[n - 1]) {
            1nat
        } else {
            0nat
        }
    }
}

/// A string at least 4 bytes long of which more than nineteen twentieths
/// are base64 bytes may carry encoded data.  Ordinary prose stays under
/// the bar: a stray space or punctuation mark per few words clears it.
pub open spec fn spec_potential_base64(s: Seq<u8>) -> bool {
    s.len() >= 4 && 20 * b64_count(s, s.len()) > 19 * s.len()
}

/// Whether a string looks like base64-encoded data.
pub fn is_potential_base64(s: &str) -> (r: bool)
    ensures
        r == spec_potential_base64(s.spec_bytes()),
{
    let bytes: &[u8] = s.as_bytes();
    let n: usize = bytes.len();
    if n < 4 {
        return false;
    }
    let mut count: usize = 0;
    let mut i: usize = 0;
    while i < n
        invariant
            i <= n == bytes@.len(),
            count == b64_count(bytes@, i as nat),
            count <= i,
        decreases n - i,
    {
        let b: u8 = bytes[i];
        if (48 <= b && b <= 57) || (65 <= b && b <= 90) || (97 <= b && b <= 122) || b == 43 || b
            == 47 || b == 61 {
            count = count + 1;
        }
        proof {
            assert(b64_count(bytes@, (i + 1) as nat) == b64_count(bytes@, i as nat) + (if is_b64_byte(
                bytes@[i as int],
            ) {
                1nat
            } else {
                0nat
            }));
        }
        i = i + 1;
    }
    proof {
        assert(20 * (count as int) < 0x1_0000_0000_0000_0000_0000) by (nonlinear_arith)
            requires
                0 <= count,
                (count as int) < 0x1_0000_0000_0000_0000,
        ;
    }
    (20u128 * (count as u128)) > (19u128 * (n as u128))
}

/// The suspicion findings one metadata field contributes, in order: the
/// oversize note for a value past 1000 bytes, then the encoded-data note
/// for base64-looking values past 50 bytes.
pub open spec fn spec_field_findings(tag: Seq<char>, value_bytes: Seq<u8>) -> Seq<Seq<char>> {
    let a: Seq<Seq<char>> = if value_bytes.len() > 1000 {
        seq![tag + ": unusually large ("@ + dec_chars(value_bytes.len()) + "+ bytes)"@]
    } else {
        Seq::empty()
    };
    if spec_potential_base64(value_bytes) && value_bytes.len() > 50 {
        a + seq![tag + ": potential encoded data"@]
    } else {
        a
    }
}

impl ExifData {
    /// Record one metadata field: it joins the raw map, a comment or
    /// description tag joins the comment list, and the suspicion checks
    /// run over its value.
    pub fn record_field(&mut self, tag_name: &str, value: &str, is_comment_tag: bool)
        ensures
            final(self).has_thumbnail == old(self).has_thumbnail,
            final(self).thumbnail_size == old(self).thumbnail_size,
            strs(final(self).comment_fields@) == (if is_comment_tag {
                strs(old(self).comment_fields@).push(tag_name@ + ": "@ + value@)
            } else {
                strs(old(self).comment_fields@)
            }),
            strs(final(self).suspicious_fields@) == strs(old(self).suspicious_fields@)
                + spec_field_findings(tag_name@, value.spec_bytes()),
    {
        self.metadata.insert(tag_name.to_owned(), value.to_owned());
        if is_comment_tag {
            let mut c: String = tag_name.to_owned();
            c.append(": ");
            c.append(value);
            let ghost prev: Seq<Seq<char>> = strs(self.comment_fields@);
            self.comment_fields.push(c);
            proof {
                assert(strs(self.comment_fields@) =~= prev.push(tag_name@ + ": "@ + value@));
            }
        }
        let vlen: usize = value.as_bytes().len();
        if vlen > 1000 {
            let mut f: String = tag_name.to_owned();
            f.append(": unusually large (");
            let dec: String = usize_to_dec_string(vlen);
            f.append(dec.as_str());
            f.append("+ bytes)");
            proof {
                assert(f@ =~= tag_name@ + ": unusually large ("@ + dec_chars(
                    value.spec_bytes().len(),
                ) + "+ bytes)"@);
            }
            let ghost prev: Seq<Seq<char>> = strs(self.suspicious_fields@);
            self.suspicious_fields.push(f);
            proof {
                assert(strs(self.suspicious_fields@) =~= prev.push(
                    tag_name@ + ": unusually large ("@ + dec_chars(value.spec_bytes().len())
                        + "+ bytes)"@,
                ));
            }
        }
        let b64: bool = is_potential_base64(value);
        if b64 && vlen > 50 {
            let mut f: String = tag_name.to_owned();
            f.append(": potential encoded data");
            proof {
                assert(f@ =~= tag_name@ + ": potential encoded data"@);
            }
            let ghost prev: Seq<Seq<char>> = strs(self.suspicious_fields@);
            self.suspicious_fields.push(f);
            proof {
                assert(strs(self.suspicious_fields@) =~= prev.push(
                    tag_name@ + ": potential encoded data"@,
                ));
            }
        }
        proof {
            assert(strs(self.suspicious_fields@) =~= strs(old(self).suspicious_fields@)
                + spec_field_findings(tag_name@, value.spec_bytes()));
        }
    }

    /// Record the thumbnail presence and size.
    pub fn record_thumbnail(&mut self, size: Option<usize>)
        ensures
            final(self).has_thumbnail == true,
            final(self).thumbnail_size == size,
            final(self).suspicious_fields@ == old(self).suspicious_fields@,
            final(self).comment_fields@ == old(self).comment_fields@,
    {
        self.has_thumbnail = true;
        self.thumbnail_size = size;
    }
}

} // verus!
