//! Audio-tag suspicion checks: the length and encoding heuristics over
//! comments, lyrics, embedded pictures and private frames that the
//! aggregator consumes.  Reading the tag out of a file is a caller's
//! concern; the checks here work on plain strings and sizes.

use vstd::prelude::*;
use vstd::string::StringSliceAdditionalSpecFns;
use vstd::string::StringExecFns;
use std::collections::HashMap;
use crate::strutil::dec_chars;
use crate::strutil::usize_to_dec_string;
use crate::report::strs;
use crate::exif_analyzer::spec_potential_base64;

verus! {

/// Marker type for the audio-tag analyzer.
pub struct Id3Analyzer;

/// Failure of a tag read.
#[derive(Debug)]
pub enum Id3AnalyzerError {
    IO(String),
    Id3Error(String),
}

/// One embedded picture's description.
#[derive(Debug, Clone)]
pub struct PictureInfo {
    pub picture_type: String,
    pub mime_type: String,
    pub description: String,
    pub data_size: usize,
}

/// One private frame's description.
#[derive(Debug, Clone)]
pub struct PrivateFrame {
    pub owner: String,
    pub data_size: usize,
    pub is_binary: bool,
}

/// The extracted tag with its suspicion findings.
#[derive(Debug)]
pub struct Id3Data {
    pub title: Option<String>,
    pub artist: Option<String>,
    pub album: Option<String>,
    pub year: Option<i32>,
    pub comments: Vec<String>,
    pub lyrics: Option<String>,
    pub all_frames: HashMap<String, String>,
    pub suspicious_frames: Vec<String>,
    pub pictures: Vec<PictureInfo>,
    pub private_frames: Vec<PrivateFrame>,
}

impl Id3Data {
    /// The empty record.
    pub fn new() -> (r: Id3Data)
        ensures
            r.title is None,
            r.artist is None,
            r.album is None,
            r.year is None,
            r.comments@ == Seq::<String>::empty(),
            r.lyrics is None,
            r.suspicious_frames@ == Seq::<String>::empty(),
            r.pictures@ == Seq::<PictureInfo>::empty(),
            r.private_frames@ == Seq::<PrivateFrame>::empty(),
    {
        Id3Data {
            title: None,
            artist: None,
            album: None,
            year: None,
            comments: Vec::new(),
            lyrics: None,
            all_frames: HashMap::new(),
            suspicious_frames: Vec::new(),
            pictures: Vec::new(),
            private_frames: Vec::new(),
        }
    }
}

impl Default for Id3Data {
    /// The empty record.
    fn default() -> (r: Self)
        ensures
            r.comments@ == Seq::<String>::empty(),
            r.suspicious_frames@ == Seq::<String>::empty(),
    {
        Id3Data::new()
    }
}

/// A handle on a file whose tag a caller will read and feed into the
/// suspicion checks.
#[derive(Debug, Clone)]
pub struct Id3AnalyzerWithPath {
    pub path: String,
}

impl Id3AnalyzerWithPath {
    /// Remember the file to analyze.
    pub fn new(path: String) -> (r: Id3AnalyzerWithPath)
        ensures
            r.path@ == path@,
    {
        Id3AnalyzerWithPath { path }
    }
}

/// Whether a string looks like base64-encoded data.
pub fn is_potential_base64(s: &str) -> (r: bool)
    ensures
        r == spec_potential_base64(s.spec_bytes()),
{
    crate::exif_analyzer::is_potential_base64(s)
}

/// The rendered form of one comment.
pub open spec fn comment_line(lang: Seq<char>, description: Seq<char>, text: Seq<char>) -> Seq<
    char,
> {
    lang + " ["@ + description + "]: "@ + text
}

/// The suspicion findings one comment contributes, in order: the oversize
/// note past 500 bytes, then the encoded-data note for base64-looking text
/// past 50 bytes.
pub open spec fn spec_comment_findings(text_bytes: Seq<u8>) -> Seq<Seq<char>> {
    let a: Seq<Seq<char>> = if text_bytes.len() > 500 {
        seq!["Large comment field: "@ + dec_chars(text_bytes.len()) + " bytes"@]
    } else {
        Seq::empty()
    };
    if spec_potential_base64(text_bytes) && text_bytes.len() > 50 {
        a + seq!["Comment contains potential encoded data"@]
    } else {
        a
    }
}

impl Id3Data {
    /// Record one comment frame with its suspicion checks.
    pub fn record_comment(&mut self, lang: &str, description: &str, text: &str)
        ensures
            strs(final(self).comments@) == strs(old(self).comments@).push(
                comment_line(lang@, description@, text@),
            ),
            strs(final(self).suspicious_frames@) == strs(old(self).suspicious_frames@)
                + spec_comment_findings(text.spec_bytes()),
            final(self).pictures@ == old(self).pictures@,
            final(self).private_frames@ == old(self).private_frames@,
            final(self).lyrics == old(self).lyrics,
    {
        let mut c: String = lang.to_owned();
        c.append(" [");
        c.append(description);
        c.append("]: ");
        c.append(text);
        proof {
            assert(c@ =~= comment_line(lang@, description@, text@));
        }
        let ghost prev_c: Seq<Seq<char>> = strs(self.comments@);
        self.comments.push(c);
        proof {
            assert(strs(self.comments@) =~= prev_c.push(comment_line(lang@, description@, text@)));
        }
        let tlen: usize = text.as_bytes().len();
        if tlen > 500 {
            let mut f: String = "Large comment field: ".to_owned();
            let dec: String = usize_to_dec_string(tlen);
            f.append(dec.as_str());
            f.append(" bytes");
            proof {
                assert(f@ =~= "Large comment field: "@ + dec_chars(text.spec_bytes().len())
                    + " bytes"@);
            }
            let ghost prev: Seq<Seq<char>> = strs(self.suspicious_frames@);
            self.suspicious_frames.push(f);
            proof {
                assert(strs(self.suspicious_frames@) =~= prev.push(
                    "Large comment field: "@ + dec_chars(text.spec_bytes().len()) + " bytes"@,
                ));
            }
        }
        let b64: bool = is_potential_base64(text);
        if b64 && tlen > 50 {
            let ghost prev: Seq<Seq<char>> = strs(self.suspicious_frames@);
            self.suspicious_frames.push("Comment contains potential encoded data".to_owned());
            proof {
                assert(strs(self.suspicious_frames@) =~= prev.push(
                    "Comment contains potential encoded data"@,
                ));
            }
        }
        proof {
            assert(strs(self.suspicious_frames@) =~= strs(old(self).suspicious_frames@)
                + spec_comment_findings(text.spec_bytes()));
        }
    }

    /// Record the lyrics frame; lyrics past 10000 bytes are flagged.
    pub fn record_lyrics(&mut self, text: String)
        ensures
            final(self).lyrics matches Some(l) && l@ == text@,
            strs(final(self).suspicious_frames@) == (if vstd::utf8::encode_utf8(text@).len()
                > 10000 {
                strs(old(self).suspicious_frames@).push(
                    "Unusually large lyrics: "@ + dec_chars(vstd::utf8::encode_utf8(text@).len())
                        + " bytes"@,
                )
            } else {
                strs(old(self).suspicious_frames@)
            }),
            strs(final(self).comments@) == strs(old(self).comments@),
            final(self).pictures@ == old(self).pictures@,
            final(self).private_frames@ == old(self).private_frames@,
    {
        let tlen: usize = text.as_str().as_bytes().len();
        if tlen > 10000 {
            let mut f: String = "Unusually large lyrics: ".to_owned();
            let dec: String = usize_to_dec_string(tlen);
            f.append(dec.as_str());
            f.append(" bytes");
            proof {
                assert(f@ =~= "Unusually large lyrics: "@ + dec_chars(
                    vstd::utf8::encode_utf8(text@).len(),
                ) + " bytes"@);
            }
            let ghost prev: Seq<Seq<char>> = strs(self.suspicious_frames@);
            self.suspicious_frames.push(f);
            proof {
                assert(strs(self.suspicious_frames@) =~= prev.push(
                    "Unusually large lyrics: "@ + dec_chars(vstd::utf8::encode_utf8(text@).len())
                        + " bytes"@,
                ));
            }
        }
        self.lyrics = Some(text);
        proof {
            assert(strs(self.comments@) =~= strs(old(self).comments@));
        }
    }

    /// Record one embedded picture; pictures past 5 MB are flagged with
    /// their size in whole megabytes.
    pub fn record_picture(&mut self, info: PictureInfo)
        ensures
            final(self).pictures@ == old(self).pictures@.push(info),
            strs(final(self).suspicious_frames@) == (if info.data_size > 5000000 {
                strs(old(self).suspicious_frames@).push(
                    "Large embedded picture: "@ + dec_chars(info.data_size as nat / 1000000)
                        + " MB"@,
                )
            } else {
                strs(old(self).suspicious_frames@)
            }),
            strs(final(self).comments@) == strs(old(self).comments@),
            final(self).private_frames@ == old(self).private_frames@,
    {
        if info.data_size > 5000000 {
            let mut f: String = "Large embedded picture: ".to_owned();
            let dec: String = usize_to_dec_string(info.data_size / 1000000);
            f.append(dec.as_str());
            f.append(" MB");
            proof {
                assert(f@ =~= "Large embedded picture: "@ + dec_chars(
                    info.data_size as nat / 1000000,
                ) + " MB"@);
            }
            let ghost prev: Seq<Seq<char>> = strs(self.suspicious_frames@);
            self.suspicious_frames.push(f);
            proof {
                assert(strs(self.suspicious_frames@) =~= prev.push(
                    "Large embedded picture: "@ + dec_chars(info.data_size as nat / 1000000)
                        + " MB"@,
                ));
            }
        }
        self.pictures.push(info);
        proof {
            assert(strs(self.comments@) =~= strs(old(self).comments@));
        }
    }

    /// Record one private frame; frames past 1000 bytes are flagged.
    pub fn record_private_frame(&mut self, content_len: usize)
        ensures
            final(self).private_frames@.len() == old(self).private_frames@.len() + 1,
            final(self).private_frames@.last().owner@ == "PRIV"@,
            final(self).private_frames@.last().data_size == content_len,
            final(self).private_frames@.last().is_binary == true,
            strs(final(self).suspicious_frames@) == (if content_len > 1000 {
                strs(old(self).suspicious_frames@).push(
                    "Large private frame: ~"@ + dec_chars(content_len as nat) + " bytes"@,
                )
            } else {
                strs(old(self).suspicious_frames@)
            }),
            strs(final(self).comments@) == strs(old(self).comments@),
            final(self).pictures@ == old(self).pictures@,
    {
        if content_len > 1000 {
            let mut f: String = "Large private frame: ~".to_owned();
            let dec: String = usize_to_dec_string(content_len);
            f.append(dec.as_str());
            f.append(" bytes");
            proof {
                assert(f@ =~= "Large private frame: ~"@ + dec_chars(content_len as nat)
                    + " bytes"@);
            }
            let ghost prev: Seq<Seq<char>> = strs(self.suspicious_frames@);
            self.suspicious_frames.push(f);
            proof {
                assert(strs(self.suspicious_frames@) =~= prev.push(
                    "Large private frame: ~"@ + dec_chars(content_len as nat) + " bytes"@,
                ));
            }
        }
        self.private_frames.push(
            PrivateFrame { owner: "PRIV".to_owned(), data_size: content_len, is_binary: true },
        );
        proof {
            assert(strs(self.comments@) =~= strs(old(self).comments@));
        }
    }

    /// Store one raw frame in the frame map.
    pub fn record_frame(&mut self, frame_id: &str, frame_value: &str)
        ensures
            strs(final(self).comments@) == strs(old(self).comments@),
            final(self).suspicious_frames@ == old(self).suspicious_frames@,
            final(self).pictures@ == old(self).pictures@,
            final(self).private_frames@ == old(self).private_frames@,
    {
        self.all_frames.insert(frame_id.to_owned(), frame_value.to_owned());
        proof {
            assert(strs(self.comments@) =~= strs(old(self).comments@));
        }
    }
}

} // verus!
