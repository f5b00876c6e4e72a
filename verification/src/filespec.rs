//! Deterministic mapping from a sink's configuration to the names of its
//! files: the active file, rotated siblings by number or timestamp, restart
//! tie-breakers, and the glob patterns that enumerate siblings.

use crate::deferred_now::Timestamp;
use crate::strutil::padded_digits;
use crate::strutil::push_char;
use crate::strutil::push_padded_digits;
use vstd::prelude::*;

verus! {

/// The infix of the file a rotating sink writes into.
pub open spec fn current_infix() -> Seq<char> {
    seq!['_', 'r', 'C', 'U', 'R', 'R', 'E', 'N', 'T']
}

/// The infix of the file a rotating sink writes into, `_rCURRENT`.
pub fn current_infix_str() -> (r: &'static str)
    ensures
        r@ == current_infix(),
{
    proof {
        reveal_strlit("_rCURRENT");
        assert("_rCURRENT"@ =~= current_infix());
    }
    "_rCURRENT"
}

/// The infix of the rotated file with the given index: `_r` and the index,
/// zero-padded to five digits.
pub open spec fn spec_number_infix(idx: u32) -> Seq<char> {
    seq!['_', 'r'] + padded_digits(idx as nat, 5)
}

/// The infix of the rotated file with the given index.
pub fn number_infix(idx: u32) -> (r: String)
    ensures
        r@ == spec_number_infix(idx),
{
    let mut r = String::new();
    push_char(&mut r, '_');
    push_char(&mut r, 'r');
    push_padded_digits(&mut r, idx, 5);
    proof {
        assert(r@ =~= spec_number_infix(idx));
    }
    r
}

/// The timestamp infix of a rotated file:
/// `_r{year}-{month}-{day}T{hour}:{minute}:{second}{sign}{offset hours}`,
/// every field zero-padded, the sign always written.
pub open spec fn spec_timestamp_infix(ts: Timestamp) -> Seq<char> {
    seq!['_', 'r'] + padded_digits(ts.year as nat, 4) + seq!['-'] + padded_digits(ts.month as nat, 2)
        + seq!['-'] + padded_digits(ts.day as nat, 2) + seq!['T'] + padded_digits(ts.hour as nat, 2)
        + seq![':'] + padded_digits(ts.minute as nat, 2) + seq![':'] + padded_digits(
        ts.second as nat,
        2,
    ) + (if ts.offset_hour >= 0 {
        seq!['+']
    } else {
        seq!['-']
    }) + padded_digits(
        (if ts.offset_hour >= 0 {
            ts.offset_hour as int
        } else {
            -(ts.offset_hour as int)
        }) as nat,
        2,
    )
}

/// The timestamp infix of a rotated file.
pub fn timestamp_infix(ts: &Timestamp) -> (r: String)
    requires
        ts.wf(),
        ts.year >= 0,
    ensures
        r@ == spec_timestamp_infix(*ts),
{
    let mut r = String::new();
    push_char(&mut r, '_');
    push_char(&mut r, 'r');
    push_padded_digits(&mut r, ts.year as u32, 4);
    push_char(&mut r, '-');
    push_padded_digits(&mut r, ts.month as u32, 2);
    push_char(&mut r, '-');
    push_padded_digits(&mut r, ts.day as u32, 2);
    push_char(&mut r, 'T');
    push_padded_digits(&mut r, ts.hour as u32, 2);
    push_char(&mut r, ':');
    push_padded_digits(&mut r, ts.minute as u32, 2);
    push_char(&mut r, ':');
    push_padded_digits(&mut r, ts.second as u32, 2);
    if ts.offset_hour >= 0 {
        push_char(&mut r, '+');
        push_padded_digits(&mut r, ts.offset_hour as u32, 2);
    } else {
        push_char(&mut r, '-');
        let h: i8 = ts.offset_hour;
        let abs: u32 = (-(h as i32)) as u32;
        push_padded_digits(&mut r, abs, 2);
    }
    proof {
        assert(r@ =~= spec_timestamp_infix(*ts));
    }
    r
}

/// A timestamp infix starts with the marker and a digit and holds neither
/// a dot nor a path separator.
#[verifier::rlimit(100)]
pub proof fn lemma_timestamp_infix_chars(ts: Timestamp)
    requires
        ts.wf(),
        ts.year >= 0,
    ensures
        spec_timestamp_infix(ts).len() >= 3,
        spec_timestamp_infix(ts)[0] == '_' && spec_timestamp_infix(ts)[1] == 'r',
        crate::strutil::is_dec_digit(spec_timestamp_infix(ts)[2]),
        forall|i: int|
            0 <= i < spec_timestamp_infix(ts).len() ==> #[trigger] spec_timestamp_infix(ts)[i]
                != '.' && spec_timestamp_infix(ts)[i] != '/',
{
    let w = spec_timestamp_infix(ts);
    let y = padded_digits(ts.year as nat, 4);
    let mo = padded_digits(ts.month as nat, 2);
    let d = padded_digits(ts.day as nat, 2);
    let h = padded_digits(ts.hour as nat, 2);
    let mi = padded_digits(ts.minute as nat, 2);
    let s = padded_digits(ts.second as nat, 2);
    let sign: Seq<char> = if ts.offset_hour >= 0 {
        seq!['+']
    } else {
        seq!['-']
    };
    let off = padded_digits(
        (if ts.offset_hour >= 0 {
            ts.offset_hour as int
        } else {
            -(ts.offset_hour as int)
        }) as nat,
        2,
    );
    crate::strutil::lemma_parse_padded_roundtrip(ts.year as nat, 4);
    crate::strutil::lemma_parse_padded_roundtrip(ts.month as nat, 2);
    crate::strutil::lemma_parse_padded_roundtrip(ts.day as nat, 2);
    crate::strutil::lemma_parse_padded_roundtrip(ts.hour as nat, 2);
    crate::strutil::lemma_parse_padded_roundtrip(ts.minute as nat, 2);
    crate::strutil::lemma_parse_padded_roundtrip(ts.second as nat, 2);
    crate::strutil::lemma_parse_padded_roundtrip(
        (if ts.offset_hour >= 0 {
            ts.offset_hour as int
        } else {
            -(ts.offset_hour as int)
        }) as nat,
        2,
    );
    assert(w =~= seq!['_', 'r'] + y + seq!['-'] + mo + seq!['-'] + d + seq!['T'] + h + seq![':']
        + mi + seq![':'] + s + sign + off);
    assert(w[2] == y[0]);
    assert forall|i: int| 0 <= i < w.len() implies #[trigger] w[i] != '.' && w[i] != '/' by {
        let p0 = 2int;
        let p1 = p0 + y.len();
        let p2 = p1 + 1;
        let p3 = p2 + mo.len();
        let p4 = p3 + 1;
        let p5 = p4 + d.len();
        let p6 = p5 + 1;
        let p7 = p6 + h.len();
        let p8 = p7 + 1;
        let p9 = p8 + mi.len();
        let p10 = p9 + 1;
        let p11 = p10 + s.len();
        let p12 = p11 + 1;
        if i < p0 {
        } else if i < p1 {
            assert(w[i] == y[i - p0] && crate::strutil::is_dec_digit(y[i - p0]));
        } else if i < p2 {
            assert(w[i] == '-');
        } else if i < p3 {
            assert(w[i] == mo[i - p2] && crate::strutil::is_dec_digit(mo[i - p2]));
        } else if i < p4 {
            assert(w[i] == '-');
        } else if i < p5 {
            assert(w[i] == d[i - p4] && crate::strutil::is_dec_digit(d[i - p4]));
        } else if i < p6 {
            assert(w[i] == 'T');
        } else if i < p7 {
            assert(w[i] == h[i - p6] && crate::strutil::is_dec_digit(h[i - p6]));
        } else if i < p8 {
            assert(w[i] == ':');
        } else if i < p9 {
            assert(w[i] == mi[i - p8] && crate::strutil::is_dec_digit(mi[i - p8]));
        } else if i < p10 {
            assert(w[i] == ':');
        } else if i < p11 {
            assert(w[i] == s[i - p10] && crate::strutil::is_dec_digit(s[i - p10]));
        } else if i < p12 {
            assert(w[i] == sign[0]);
        } else {
            assert(w[i] == off[i - p12] && crate::strutil::is_dec_digit(off[i - p12]));
        }
    }
}

/// The `.restart-{n}` tie-breaker appended to a timestamp infix, the number
/// zero-padded to four digits.
pub open spec fn spec_restart_suffix(n: u32) -> Seq<char> {
    seq!['.', 'r', 'e', 's', 't', 'a', 'r', 't', '-'] + padded_digits(n as nat, 4)
}

/// Appends the `.restart-{n}` tie-breaker to an infix.
pub fn push_restart_suffix(s: &mut String, n: u32)
    ensures
        final(s)@ == old(s)@ + spec_restart_suffix(n),
{
    proof {
        reveal_strlit(".restart-");
    }
    s.append(".restart-");
    push_padded_digits(s, n, 4);
    proof {
        assert(final(s)@ =~= old(s)@ + spec_restart_suffix(n));
    }
}

/// The bundle of directory, basename, optional discriminant and suffix that
/// fully determines the sink's on-disk namespace.
#[derive(Clone, Debug)]
pub struct FileSpec {
    /// The directory the files live in, without a trailing separator.
    pub directory: String,
    /// The first token of every file name.
    pub basename: String,
    /// An optional fixed token that disambiguates concurrent sinks writing
    /// into the same directory.
    pub o_discriminant: Option<String>,
    /// The file extension, without the dot.
    pub suffix: String,
}

impl FileSpec {
    /// The path `{directory}/{basename}[_{discriminant}]{infix}.{suffix}`
    /// with the given suffix in place of the spec's own.
    pub open spec fn spec_path_with_suffix(
        self,
        o_infix: Option<Seq<char>>,
        suffix: Seq<char>,
    ) -> Seq<char> {
        self.directory@ + seq!['/'] + self.basename@ + (match self.o_discriminant {
            Some(d) => seq!['_'] + d@,
            None => Seq::<char>::empty(),
        }) + (match o_infix {
            Some(infix) => infix,
            None => Seq::<char>::empty(),
        }) + seq!['.'] + suffix
    }

    /// The path `{directory}/{basename}[_{discriminant}]{infix}.{suffix}`.
    pub open spec fn spec_path(self, o_infix: Option<Seq<char>>) -> Seq<char> {
        self.spec_path_with_suffix(o_infix, self.suffix@)
    }

    /// A new spec with suffix `log` and no discriminant.
    pub fn new(directory: String, basename: String) -> (r: FileSpec)
        ensures
            r.directory == directory,
            r.basename == basename,
            r.o_discriminant is None,
            r.suffix@ == seq!['l', 'o', 'g'],
    {
        proof {
            reveal_strlit("log");
            assert("log"@ =~= seq!['l', 'o', 'g']);
        }
        FileSpec { directory, basename, o_discriminant: None, suffix: String::from_str("log") }
    }

    /// The same spec with the given discriminant.
    pub fn discriminant(self, discriminant: String) -> (r: FileSpec)
        ensures
            r == (FileSpec { o_discriminant: Some(discriminant), ..self }),
    {
        FileSpec { o_discriminant: Some(discriminant), ..self }
    }

    /// The same spec with the given directory.
    pub fn directory(self, directory: String) -> (r: FileSpec)
        ensures
            r == (FileSpec { directory, ..self }),
    {
        FileSpec { directory, ..self }
    }

    /// The same spec with the given suffix.
    pub fn suffix(self, suffix: String) -> (r: FileSpec)
        ensures
            r == (FileSpec { suffix, ..self }),
    {
        FileSpec { suffix, ..self }
    }

    /// The canonical output path for the given infix.
    pub fn as_pathbuf(&self, o_infix: Option<&str>) -> (r: String)
        ensures
            r@ == self.spec_path(
                match o_infix {
                    Some(infix) => Some(infix@),
                    None => None,
                },
            ),
    {
        let mut r = self.directory.clone();
        push_char(&mut r, '/');
        r.append(self.basename.as_str());
        match &self.o_discriminant {
            Some(d) => {
                push_char(&mut r, '_');
                r.append(d.as_str());
            },
            None => {},
        }
        match o_infix {
            Some(infix) => {
                r.append(infix);
            },
            None => {},
        }
        push_char(&mut r, '.');
        r.append(self.suffix.as_str());
        proof {
            assert(r@ =~= self.spec_path(
                match o_infix {
                    Some(infix) => Some(infix@),
                    None => None,
                },
            ));
        }
        r
    }

    /// Distinct infixes derive distinct paths.
    pub proof fn lemma_path_infix_injective(self, ix1: Seq<char>, ix2: Seq<char>)
        requires
            self.spec_path(Some(ix1)) == self.spec_path(Some(ix2)),
        ensures
            ix1 == ix2,
    {
        let p1 = self.spec_path(Some(ix1));
        let p2 = self.spec_path(Some(ix2));
        let head = self.directory@ + seq!['/'] + self.basename@ + (match self.o_discriminant {
            Some(d) => seq!['_'] + d@,
            None => Seq::<char>::empty(),
        });
        assert(p1.len() == head.len() + ix1.len() + 1 + self.suffix@.len());
        assert(p2.len() == head.len() + ix2.len() + 1 + self.suffix@.len());
        assert(ix1.len() == ix2.len());
        assert forall|i: int| 0 <= i < ix1.len() implies ix1[i] == ix2[i] by {
            assert(p1[head.len() + i] == ix1[i]);
            assert(p2[head.len() + i] == ix2[i]);
        }
        assert(ix1 =~= ix2);
    }

    /// A pattern for sibling enumeration: the path for the given infix
    /// pattern, with the spec's suffix unless another one is given.
    pub fn as_glob_pattern(&self, o_infix_pattern: Option<&str>, o_suffix: Option<&str>) -> (r:
        String)
        ensures
            r@ == self.spec_path_with_suffix(
                match o_infix_pattern {
                    Some(infix) => Some(infix@),
                    None => None,
                },
                match o_suffix {
                    Some(sfx) => sfx@,
                    None => self.suffix@,
                },
            ),
    {
        let mut r = self.directory.clone();
        push_char(&mut r, '/');
        r.append(self.basename.as_str());
        match &self.o_discriminant {
            Some(d) => {
                push_char(&mut r, '_');
                r.append(d.as_str());
            },
            None => {},
        }
        match o_infix_pattern {
            Some(infix) => {
                r.append(infix);
            },
            None => {},
        }
        push_char(&mut r, '.');
        match o_suffix {
            Some(sfx) => {
                r.append(sfx);
            },
            None => {
                r.append(self.suffix.as_str());
            },
        }
        proof {
            assert(r@ =~= self.spec_path_with_suffix(
                match o_infix_pattern {
                    Some(infix) => Some(infix@),
                    None => None,
                },
                match o_suffix {
                    Some(sfx) => sfx@,
                    None => self.suffix@,
                },
            ));
        }
        r
    }
}

} // verus!
