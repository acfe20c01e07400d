//! The escape-sequence parser: consumes bytes starting at an ESC (0x1B)
//! byte and returns a decoded token together with the number of bytes
//! consumed, or `Incomplete` (consumed 0) when more input is needed.

use vstd::prelude::*;

verus! {

// ------------------------------------------------------------------
// Mathematical tokens: what a decoded sequence means, with sequence
// payloads instead of vectors.
// ------------------------------------------------------------------

/// A decoded CSI operation, at the specification level.
pub enum SpecCsi {
    CUU(u32),
    CUD(u32),
    CUF(u32),
    CUB(u32),
    CNL(u32),
    CPL(u32),
    CHA(u32),
    CVA(u32),
    CUP(u32, u32),
    ED(u32),
    EL(u32),
    SU(u32),
    SD(u32),
    IL(u32),
    HVP(u32, u32),
    SGR(u32, Seq<u32>),
    DECSTBM(u32, u32),
    DECSLRM(u32, u32),
    Unknown,
}

/// A decoded OSC operation, at the specification level.
pub enum SpecOsc {
    WindowTitle(Seq<u8>),
    Unknown,
}

/// A decoded escape token, at the specification level. Diagnostic
/// strings carried by the executable tokens are not part of the meaning.
pub enum SpecTok {
    SS2,
    SS3,
    DCS,
    CSI(SpecCsi),
    ST,
    OSC(SpecOsc),
    RIS,
    SOS,
    PM,
    APC,
    Incomplete,
    Unknown,
}

// ------------------------------------------------------------------
// Numeric arguments
// ------------------------------------------------------------------

pub open spec fn spec_is_digit(b: u8) -> bool {
    0x30 <= b <= 0x39
}

pub open spec fn spec_all_digits(s: Seq<u8>) -> bool {
    forall|k: int| 0 <= k < s.len() ==> spec_is_digit(#[trigger] s[k])
}

/// The numeric value of a digit string, most significant digit first.
pub open spec fn spec_digits_val(s: Seq<u8>) -> int
    decreases s.len(),
{
    if s.len() == 0 {
        0
    } else {
        spec_digits_val(s.drop_last()) * 10 + (s.last() - 0x30)
    }
}

/// What parsing an unsigned decimal argument returns: `Some` exactly for
/// a non-empty, all-digit string whose value fits in a `u32`.
pub open spec fn spec_parse_u32(s: Seq<u8>) -> Option<u32> {
    if s.len() == 0 || !spec_all_digits(s) {
        None
    } else if spec_digits_val(s) > u32::MAX {
        None
    } else {
        Some(spec_digits_val(s) as u32)
    }
}

proof fn lemma_digits_val_nonneg(s: Seq<u8>)
    requires
        spec_all_digits(s),
    ensures
        spec_digits_val(s) >= 0,
    decreases s.len(),
{
    if s.len() > 0 {
        assert(spec_all_digits(s.drop_last()));
        lemma_digits_val_nonneg(s.drop_last());
    }
}

proof fn lemma_digits_val_take_le(s: Seq<u8>, n: int)
    requires
        spec_all_digits(s),
        0 <= n <= s.len(),
    ensures
        spec_digits_val(s.take(n)) <= spec_digits_val(s),
    decreases s.len() - n,
{
    if n == s.len() {
        assert(s.take(n) =~= s);
    } else {
        lemma_digits_val_take_le(s, n + 1);
        assert(s.take(n + 1).drop_last() =~= s.take(n));
        assert(spec_all_digits(s.take(n)));
        lemma_digits_val_nonneg(s.take(n));
        assert(spec_digits_val(s.take(n + 1)) == spec_digits_val(s.take(n)) * 10 + (s[n] - 0x30));
    }
}

/// Parses an unsigned decimal argument.
fn parse_u32(s: &Vec<u8>) -> (r: Option<u32>)
    ensures
        r == spec_parse_u32(s@),
{
    if s.len() == 0 {
        return None;
    }
    let mut acc: u64 = 0;
    let mut i: usize = 0;
    while i < s.len()
        invariant
            i <= s@.len(),
            spec_all_digits(s@.take(i as int)),
            acc == spec_digits_val(s@.take(i as int)),
            acc <= u32::MAX,
        decreases s@.len() - i,
    {
        let b = s[i];
        if b < 0x30 || b > 0x39 {
            assert(!spec_is_digit(s@[i as int]));
            return None;
        }
        proof {
            assert(s@.take(i + 1).drop_last() =~= s@.take(i as int));
            assert(s@.take(i + 1).last() == b);
            assert forall|k: int| 0 <= k < i + 1 implies spec_is_digit(#[trigger] s@.take(i + 1)[k]) by {
                if k < i {
                    assert(s@.take(i as int)[k] == s@.take(i + 1)[k]);
                }
            }
        }
        let next: u64 = acc * 10 + ((b - 0x30) as u64);
        assert(next == spec_digits_val(s@.take(i + 1)));
        if next > 0xFFFF_FFFFu64 {
            proof {
                if spec_all_digits(s@) {
                    lemma_digits_val_take_le(s@, i + 1);
                }
            }
            return None;
        }
        acc = next;
        i = i + 1;
    }
    assert(s@.take(i as int) =~= s@);
    Some(acc as u32)
}

// ------------------------------------------------------------------
// Decoding a finished CSI / OSC sequence from its argument strings
// ------------------------------------------------------------------

/// The SGR parameter list: every argument after the first, parsed as a
/// number, with unparsable entries becoming 0.
pub open spec fn spec_sgr_args(args: Seq<Seq<u8>>) -> Seq<u32> {
    if args.len() == 0 {
        Seq::empty()
    } else {
        Seq::new((args.len() - 1) as nat, |k: int| match spec_parse_u32(args[k + 1]) {
            Some(v) => v,
            None => 0u32,
        })
    }
}

/// Decodes a CSI final byte plus its argument strings. The first
/// argument defaults to 1 when it does not parse, except that erase
/// operations and SGR then default to 0; a missing or unparsable second
/// argument defaults to 1. A leading `?` marks a private sequence, all
/// of which are unknown here.
pub open spec fn spec_csi_from(fin: u8, args: Seq<Seq<u8>>) -> SpecCsi {
    let private = args.len() > 0 && args[0].len() > 0 && args[0][0] == 0x3f;
    if private {
        SpecCsi::Unknown
    } else {
        let p0 = if args.len() > 0 {
            spec_parse_u32(args[0])
        } else {
            None
        };
        let n = match p0 {
            Some(v) => v,
            None => 1u32,
        };
        let dflt = p0 is None;
        let m = if args.len() > 1 {
            match spec_parse_u32(args[1]) {
                Some(v) => v,
                None => 1u32,
            }
        } else {
            1u32
        };
        if fin == 0x41 {
            SpecCsi::CUU(n)
        } else if fin == 0x42 {
            SpecCsi::CUD(n)
        } else if fin == 0x43 {
            SpecCsi::CUF(n)
        } else if fin == 0x44 {
            SpecCsi::CUB(n)
        } else if fin == 0x45 {
            SpecCsi::CNL(n)
        } else if fin == 0x46 {
            SpecCsi::CPL(n)
        } else if fin == 0x47 {
            SpecCsi::CHA(n)
        } else if fin == 0x64 {
            SpecCsi::CVA(n)
        } else if fin == 0x48 || fin == 0x66 {
            SpecCsi::CUP(n, m)
        } else if fin == 0x4a {
            SpecCsi::ED(if dflt { 0 } else { n })
        } else if fin == 0x4b {
            SpecCsi::EL(if dflt { 0 } else { n })
        } else if fin == 0x4c {
            SpecCsi::IL(n)
        } else if fin == 0x53 {
            SpecCsi::SU(n)
        } else if fin == 0x54 {
            SpecCsi::SD(n)
        } else if fin == 0x6d {
            SpecCsi::SGR(if dflt { 0 } else { n }, spec_sgr_args(args))
        } else if fin == 0x72 {
            SpecCsi::DECSTBM(n, m)
        } else if fin == 0x73 {
            SpecCsi::DECSLRM(n, m)
        } else {
            SpecCsi::Unknown
        }
    }
}

/// Decodes an OSC selector: selector 0 or 2 with a string argument is a
/// window-title set; anything else is unknown.
pub open spec fn spec_osc_from(args: Seq<Seq<u8>>) -> SpecOsc {
    if args.len() >= 2 && (args[0] == seq![0x30u8] || args[0] == seq![0x32u8]) {
        SpecOsc::WindowTitle(args[1])
    } else {
        SpecOsc::Unknown
    }
}

/// The introducer selected by the byte after ESC.
pub open spec fn spec_from_byte(b: u8) -> SpecTok {
    if b == 0x4e {
        SpecTok::SS2
    } else if b == 0x4f {
        SpecTok::SS3
    } else if b == 0x50 {
        SpecTok::DCS
    } else if b == 0x5b {
        SpecTok::CSI(SpecCsi::Unknown)
    } else if b == 0x5c {
        SpecTok::ST
    } else if b == 0x5d {
        SpecTok::OSC(SpecOsc::Unknown)
    } else if b == 0x58 {
        SpecTok::SOS
    } else if b == 0x2a {
        SpecTok::PM
    } else if b == 0x5f {
        SpecTok::APC
    } else if b == 0x63 {
        SpecTok::RIS
    } else {
        SpecTok::Unknown
    }
}

/// What finishing a sequence with final byte `ch` yields for each
/// introducer: CSI and OSC decode their arguments, everything else
/// collapses to a plain terminator token.
pub open spec fn spec_finish(ch: u8, t: SpecTok, args: Seq<Seq<u8>>) -> SpecTok {
    match t {
        SpecTok::CSI(_) => SpecTok::CSI(spec_csi_from(ch, args)),
        SpecTok::OSC(_) => SpecTok::OSC(spec_osc_from(args)),
        SpecTok::Unknown => SpecTok::Unknown,
        _ => SpecTok::ST,
    }
}

// ------------------------------------------------------------------
// The scanner: meaning of a byte stream from position j
// ------------------------------------------------------------------

/// Scans the parameter bytes of a CSI sequence that began at `j`, with
/// the scan at `i`: parameter bytes accumulate arguments split on `;`,
/// a final byte in 0x40..0x80 finishes the sequence, anything else is
/// illegal; running out of input means the sequence is incomplete.
pub open spec fn spec_scan_csi(s: Seq<u8>, j: int, i: int, args: Seq<Seq<u8>>, cur: Seq<u8>) -> (
    SpecTok,
    int,
)
    decreases s.len() - j, 0int, s.len() - i,
{
    if i < j + 2 || i >= s.len() || j < 0 {
        (SpecTok::Incomplete, 0)
    } else {
        let b = s[i];
        if b == 0x3b {
            spec_scan_csi(s, j, i + 1, args.push(cur), Seq::empty())
        } else if 0x20 <= b < 0x40 {
            spec_scan_csi(s, j, i + 1, args, cur.push(b))
        } else if 0x40 <= b < 0x80 {
            (SpecTok::CSI(spec_csi_from(b, args.push(cur))), i + 1 - j)
        } else {
            (SpecTok::Unknown, i + 1 - j)
        }
    }
}

/// Scans the body of an OSC sequence: printable bytes accumulate
/// arguments split on `;`, BEL finishes it, an embedded escape sequence
/// is parsed recursively and finishes it when it is the terminator ST,
/// and any other byte is illegal.
pub open spec fn spec_scan_osc(s: Seq<u8>, j: int, i: int, args: Seq<Seq<u8>>, cur: Seq<u8>) -> (
    SpecTok,
    int,
)
    decreases s.len() - j, 0int, s.len() - i,
{
    if i < j + 2 || i >= s.len() || j < 0 {
        (SpecTok::Incomplete, 0)
    } else {
        let b = s[i];
        if b == 0x1b {
            let r = spec_escape_at(s, i);
            if r.1 < 1 {
                (SpecTok::Incomplete, 0)
            } else if r.0 == SpecTok::ST {
                (SpecTok::OSC(spec_osc_from(args.push(cur))), i + r.1 - j)
            } else {
                let next = if i + r.1 > s.len() {
                    s.len() as int
                } else {
                    i + r.1
                };
                spec_scan_osc(s, j, next, args, cur)
            }
        } else if b == 0x3b {
            spec_scan_osc(s, j, i + 1, args.push(cur), Seq::empty())
        } else if b == 0x07 {
            (SpecTok::OSC(spec_osc_from(args.push(cur))), i + 1 - j)
        } else if 0x20 <= b < 0x80 {
            spec_scan_osc(s, j, i + 1, args, cur.push(b))
        } else {
            (SpecTok::Unknown, i + 1 - j)
        }
    }
}

/// Scans the body of an introducer with no valid parameter bytes (SS2,
/// SS3, DCS, SOS, PM, APC): only `;` and an embedded terminator are
/// tolerated, so the body collapses to ST when terminated and to
/// Unknown on the first other byte.
pub open spec fn spec_scan_body(s: Seq<u8>, j: int, i: int) -> (SpecTok, int)
    decreases s.len() - j, 0int, s.len() - i,
{
    if i < j + 2 || i >= s.len() || j < 0 {
        (SpecTok::Incomplete, 0)
    } else {
        let b = s[i];
        if b == 0x1b {
            let r = spec_escape_at(s, i);
            if r.1 < 1 {
                (SpecTok::Incomplete, 0)
            } else if r.0 == SpecTok::ST {
                (SpecTok::ST, i + r.1 - j)
            } else {
                let next = if i + r.1 > s.len() {
                    s.len() as int
                } else {
                    i + r.1
                };
                spec_scan_body(s, j, next)
            }
        } else if b == 0x3b {
            spec_scan_body(s, j, i + 1)
        } else {
            (SpecTok::Unknown, i + 1 - j)
        }
    }
}

/// The token and consumed byte count of the escape sequence starting at
/// position `j` of `s`: fewer than 2 bytes are incomplete, the second
/// byte selects the introducer, and the introducer's scanner does the
/// rest. ST and RIS are complete two-byte sequences; an unmapped second
/// byte consumes only the ESC byte.
pub open spec fn spec_escape_at(s: Seq<u8>, j: int) -> (SpecTok, int)
    decreases s.len() - j, 1int, 0int,
{
    if j < 0 || s.len() < j + 2 {
        (SpecTok::Incomplete, 0)
    } else if s[j] != 0x1b {
        (SpecTok::Unknown, 1)
    } else {
        let b = s[j + 1];
        if b == 0x5b {
            spec_scan_csi(s, j, j + 2, Seq::empty(), Seq::empty())
        } else if b == 0x5d {
            spec_scan_osc(s, j, j + 2, Seq::empty(), Seq::empty())
        } else if b == 0x5c {
            (SpecTok::ST, 2)
        } else if b == 0x63 {
            (SpecTok::RIS, 2)
        } else if b == 0x4e || b == 0x4f || b == 0x50 || b == 0x58 || b == 0x2a || b == 0x5f {
            spec_scan_body(s, j, j + 2)
        } else {
            (SpecTok::Unknown, 1)
        }
    }
}

/// The meaning of parsing a whole byte string as one escape sequence.
pub open spec fn spec_escape(s: Seq<u8>) -> (SpecTok, int) {
    spec_escape_at(s, 0)
}

// ------------------------------------------------------------------
// Bounds: a parse never consumes more than the input that is there.
// ------------------------------------------------------------------

proof fn lemma_scan_csi_bounds(s: Seq<u8>, j: int, i: int, args: Seq<Seq<u8>>, cur: Seq<u8>)
    requires
        0 <= j <= s.len(),
    ensures
        0 <= spec_scan_csi(s, j, i, args, cur).1 <= s.len() - j,
    decreases s.len() - j, 0int, s.len() - i,
{
    if i < j + 2 || i >= s.len() || j < 0 {
    } else {
        let b = s[i];
        if b == 0x3b {
            lemma_scan_csi_bounds(s, j, i + 1, args.push(cur), Seq::empty());
        } else if 0x20 <= b < 0x40 {
            lemma_scan_csi_bounds(s, j, i + 1, args, cur.push(b));
        }
    }
}

proof fn lemma_scan_osc_bounds(s: Seq<u8>, j: int, i: int, args: Seq<Seq<u8>>, cur: Seq<u8>)
    requires
        0 <= j <= s.len(),
    ensures
        0 <= spec_scan_osc(s, j, i, args, cur).1 <= s.len() - j,
    decreases s.len() - j, 0int, s.len() - i,
{
    if i < j + 2 || i >= s.len() || j < 0 {
    } else {
        let b = s[i];
        if b == 0x1b {
            let r = spec_escape_at(s, i);
            lemma_escape_at_bounds(s, i);
            if r.1 < 1 {
            } else if r.0 == SpecTok::ST {
            } else {
                let next = if i + r.1 > s.len() {
                    s.len() as int
                } else {
                    i + r.1
                };
                lemma_scan_osc_bounds(s, j, next, args, cur);
            }
        } else if b == 0x3b {
            lemma_scan_osc_bounds(s, j, i + 1, args.push(cur), Seq::empty());
        } else if b == 0x07 {
        } else if 0x20 <= b < 0x80 {
            lemma_scan_osc_bounds(s, j, i + 1, args, cur.push(b));
        }
    }
}

proof fn lemma_scan_body_bounds(s: Seq<u8>, j: int, i: int)
    requires
        0 <= j <= s.len(),
    ensures
        0 <= spec_scan_body(s, j, i).1 <= s.len() - j,
    decreases s.len() - j, 0int, s.len() - i,
{
    if i < j + 2 || i >= s.len() || j < 0 {
    } else {
        let b = s[i];
        if b == 0x1b {
            let r = spec_escape_at(s, i);
            lemma_escape_at_bounds(s, i);
            if r.1 < 1 {
            } else if r.0 == SpecTok::ST {
            } else {
                let next = if i + r.1 > s.len() {
                    s.len() as int
                } else {
                    i + r.1
                };
                lemma_scan_body_bounds(s, j, next);
            }
        } else if b == 0x3b {
            lemma_scan_body_bounds(s, j, i + 1);
        }
    }
}

/// A parse starting at `j` consumes between 0 and `s.len() - j` bytes.
pub proof fn lemma_escape_at_bounds(s: Seq<u8>, j: int)
    requires
        0 <= j <= s.len(),
    ensures
        0 <= spec_escape_at(s, j).1 <= s.len() - j,
    decreases s.len() - j, 1int, 0int,
{
    if s.len() < j + 2 {
    } else if s[j] != 0x1b {
    } else {
        let b = s[j + 1];
        if b == 0x5b {
            lemma_scan_csi_bounds(s, j, j + 2, Seq::empty(), Seq::empty());
        } else if b == 0x5d {
            lemma_scan_osc_bounds(s, j, j + 2, Seq::empty(), Seq::empty());
        } else if b == 0x4e || b == 0x4f || b == 0x50 || b == 0x58 || b == 0x2a || b == 0x5f {
            lemma_scan_body_bounds(s, j, j + 2);
        }
    }
}


// ------------------------------------------------------------------
// Executable tokens
// ------------------------------------------------------------------

/// A decoded CSI operation: cursor movement, erasure, scrolling,
/// rendition, and margins, with its numeric parameters.
#[derive(Clone, Debug)]
pub enum CSIType {
    CUU(u32),
    CUD(u32),
    CUF(u32),
    CUB(u32),
    CNL(u32),
    CPL(u32),
    CHA(u32),
    CVA(u32),
    CUP(u32, u32),
    ED(u32),
    EL(u32),
    SU(u32),
    SD(u32),
    IL(u32),
    HVP(u32, u32),
    SGR(u32, Vec<u32>),
    DECSTBM(u32, u32),
    DECSLRM(u32, u32),
    Unknown(String),
}

impl View for CSIType {
    type V = SpecCsi;

    open spec fn view(&self) -> SpecCsi {
        match self {
            CSIType::CUU(n) => SpecCsi::CUU(*n),
            CSIType::CUD(n) => SpecCsi::CUD(*n),
            CSIType::CUF(n) => SpecCsi::CUF(*n),
            CSIType::CUB(n) => SpecCsi::CUB(*n),
            CSIType::CNL(n) => SpecCsi::CNL(*n),
            CSIType::CPL(n) => SpecCsi::CPL(*n),
            CSIType::CHA(n) => SpecCsi::CHA(*n),
            CSIType::CVA(n) => SpecCsi::CVA(*n),
            CSIType::CUP(n, m) => SpecCsi::CUP(*n, *m),
            CSIType::ED(n) => SpecCsi::ED(*n),
            CSIType::EL(n) => SpecCsi::EL(*n),
            CSIType::SU(n) => SpecCsi::SU(*n),
            CSIType::SD(n) => SpecCsi::SD(*n),
            CSIType::IL(n) => SpecCsi::IL(*n),
            CSIType::HVP(n, m) => SpecCsi::HVP(*n, *m),
            CSIType::SGR(n, v) => SpecCsi::SGR(*n, v@),
            CSIType::DECSTBM(n, m) => SpecCsi::DECSTBM(*n, *m),
            CSIType::DECSLRM(n, m) => SpecCsi::DECSLRM(*n, *m),
            CSIType::Unknown(_) => SpecCsi::Unknown,
        }
    }
}

/// A decoded OSC operation: a window-title set with the title bytes, or
/// an unknown selector.
#[derive(Clone, Debug)]
pub enum OSCType {
    WindowTitle(Vec<u8>),
    Unknown(String),
}

impl View for OSCType {
    type V = SpecOsc;

    open spec fn view(&self) -> SpecOsc {
        match self {
            OSCType::WindowTitle(t) => SpecOsc::WindowTitle(t@),
            OSCType::Unknown(_) => SpecOsc::Unknown,
        }
    }
}

/// A decoded escape token: the introducer kind, with the decoded
/// operation for CSI and OSC, `Incomplete` when more input is needed,
/// and `Unknown` with a diagnostic for anything unrecognized.
#[derive(Clone, Debug)]
pub enum AnsiType {
    SS2,
    SS3,
    DCS,
    CSI { kind: CSIType },
    ST,
    OSC { kind: OSCType },
    RIS,
    SOS,
    PM,
    APC,
    Incomplete,
    Unknown(String),
}

impl View for AnsiType {
    type V = SpecTok;

    open spec fn view(&self) -> SpecTok {
        match self {
            AnsiType::SS2 => SpecTok::SS2,
            AnsiType::SS3 => SpecTok::SS3,
            AnsiType::DCS => SpecTok::DCS,
            AnsiType::CSI { kind } => SpecTok::CSI(kind@),
            AnsiType::ST => SpecTok::ST,
            AnsiType::OSC { kind } => SpecTok::OSC(kind@),
            AnsiType::RIS => SpecTok::RIS,
            AnsiType::SOS => SpecTok::SOS,
            AnsiType::PM => SpecTok::PM,
            AnsiType::APC => SpecTok::APC,
            AnsiType::Incomplete => SpecTok::Incomplete,
            AnsiType::Unknown(_) => SpecTok::Unknown,
        }
    }
}

impl OSCType {
    /// Decodes a finished OSC sequence from its argument strings.
    pub fn from(ch: u8, args: Vec<Vec<u8>>) -> (r: OSCType)
        ensures
            r@ == spec_osc_from(args.deep_view()),
    {
        let _ = ch;
        if args.len() >= 2 && args[0].len() == 1 && (args[0][0] == 0x30 || args[0][0] == 0x32) {
            proof {
                assert(args.deep_view()[0] =~= args@[0]@);
                if args@[0]@[0] == 0x30 {
                    assert(args.deep_view()[0] =~= seq![0x30u8]);
                } else {
                    assert(args.deep_view()[0] =~= seq![0x32u8]);
                }
                assert(args.deep_view()[1] =~= args@[1]@);
            }
            OSCType::WindowTitle(args[1].clone())
        } else {
            proof {
                if args.deep_view().len() >= 2 {
                    assert(args.deep_view()[0] =~= args@[0]@);
                    if args@[0]@ == seq![0x30u8] || args@[0]@ == seq![0x32u8] {
                        assert(args@[0]@.len() == 1);
                        assert(args@[0]@[0] == 0x30 || args@[0]@[0] == 0x32);
                    }
                }
            }
            OSCType::Unknown("unknown operating system command".to_string())
        }
    }
}

impl CSIType {
    /// Decodes a finished CSI sequence from its final byte and argument
    /// strings.
    pub fn from(ch: u8, args: Vec<Vec<u8>>) -> (r: CSIType)
        ensures
            r@ == spec_csi_from(ch, args.deep_view()),
    {
        proof {
            if args@.len() > 0 {
                assert(args.deep_view()[0] =~= args@[0]@);
            }
            if args@.len() > 1 {
                assert(args.deep_view()[1] =~= args@[1]@);
            }
        }
        if args.len() > 0 && args[0].len() > 0 && args[0][0] == 0x3f {
            return CSIType::Unknown("unknown private control sequence".to_string());
        }
        let p0 = if args.len() > 0 {
            parse_u32(&args[0])
        } else {
            None
        };
        let (n, dflt) = match p0 {
            Some(v) => (v, false),
            None => (1u32, true),
        };
        let m = if args.len() > 1 {
            match parse_u32(&args[1]) {
                Some(v) => v,
                None => 1u32,
            }
        } else {
            1u32
        };
        if ch == 0x41 {
            CSIType::CUU(n)
        } else if ch == 0x42 {
            CSIType::CUD(n)
        } else if ch == 0x43 {
            CSIType::CUF(n)
        } else if ch == 0x44 {
            CSIType::CUB(n)
        } else if ch == 0x45 {
            CSIType::CNL(n)
        } else if ch == 0x46 {
            CSIType::CPL(n)
        } else if ch == 0x47 {
            CSIType::CHA(n)
        } else if ch == 0x64 {
            CSIType::CVA(n)
        } else if ch == 0x48 || ch == 0x66 {
            CSIType::CUP(n, m)
        } else if ch == 0x4a {
            CSIType::ED(if dflt { 0 } else { n })
        } else if ch == 0x4b {
            CSIType::EL(if dflt { 0 } else { n })
        } else if ch == 0x4c {
            CSIType::IL(n)
        } else if ch == 0x53 {
            CSIType::SU(n)
        } else if ch == 0x54 {
            CSIType::SD(n)
        } else if ch == 0x6d {
            let mut sgr_args: Vec<u32> = Vec::new();
            let mut k: usize = 1;
            while k < args.len()
                invariant
                    1 <= k,
                    k <= args@.len() || k == 1,
                    sgr_args@.len() == k - 1,
                    forall|t: int| 0 <= t < k - 1 ==> #[trigger] sgr_args@[t] == spec_sgr_args(
                        args.deep_view(),
                    )[t],
                decreases args@.len() - k,
            {
                proof {
                    assert(args.deep_view()[k as int] =~= args@[k as int]@);
                }
                let v = match parse_u32(&args[k]) {
                    Some(v) => v,
                    None => 0u32,
                };
                sgr_args.push(v);
                k = k + 1;
            }
            assert(sgr_args@ =~= spec_sgr_args(args.deep_view()));
            CSIType::SGR(if dflt { 0 } else { n }, sgr_args)
        } else if ch == 0x72 {
            CSIType::DECSTBM(n, m)
        } else if ch == 0x73 {
            CSIType::DECSLRM(n, m)
        } else {
            CSIType::Unknown("unknown control sequence final byte".to_string())
        }
    }
}

impl AnsiType {
    /// The introducer selected by the byte after ESC.
    pub fn from(ch: u8) -> (r: AnsiType)
        ensures
            r@ == spec_from_byte(ch),
    {
        if ch == 0x4e {
            AnsiType::SS2
        } else if ch == 0x4f {
            AnsiType::SS3
        } else if ch == 0x50 {
            AnsiType::DCS
        } else if ch == 0x5b {
            AnsiType::CSI { kind: CSIType::Unknown(String::new()) }
        } else if ch == 0x5c {
            AnsiType::ST
        } else if ch == 0x5d {
            AnsiType::OSC { kind: OSCType::Unknown(String::new()) }
        } else if ch == 0x58 {
            AnsiType::SOS
        } else if ch == 0x2a {
            AnsiType::PM
        } else if ch == 0x5f {
            AnsiType::APC
        } else if ch == 0x63 {
            AnsiType::RIS
        } else {
            AnsiType::Unknown("unknown escape introducer byte".to_string())
        }
    }

    /// Finishes a sequence whose introducer is `t` with final byte `ch`
    /// and the accumulated argument strings.
    pub fn finish(ch: u8, t: AnsiType, args: Vec<Vec<u8>>) -> (r: AnsiType)
        ensures
            r@ == spec_finish(ch, t@, args.deep_view()),
    {
        match t {
            AnsiType::CSI { kind: _ } => AnsiType::CSI { kind: CSIType::from(ch, args) },
            AnsiType::OSC { kind: _ } => AnsiType::OSC { kind: OSCType::from(ch, args) },
            AnsiType::Unknown(s) => AnsiType::Unknown(s),
            _ => AnsiType::ST,
        }
    }

    /// The range of bytes an introducer accepts as parameters, and the
    /// range that finishes it; both are empty for introducers with no
    /// parameter grammar.
    pub fn valid_char_ranges(t: &AnsiType) -> (r: (core::ops::Range<u32>, core::ops::Range<u32>))
        ensures
            (t@ is CSI) ==> r == (0x20u32..0x40u32, 0x40u32..0x80u32),
            (t@ is OSC) ==> r == (0x20u32..0x80u32, 0x7u32..0x8u32),
            !(t@ is CSI) && !(t@ is OSC) ==> r == (1u32..0u32, 1u32..0u32),
    {
        match t {
            AnsiType::CSI { kind: _ } => (0x20u32..0x40u32, 0x40u32..0x80u32),
            AnsiType::OSC { kind: _ } => (0x20u32..0x80u32, 0x7u32..0x8u32),
            _ => (1u32..0u32, 1u32..0u32),
        }
    }
}

// ------------------------------------------------------------------
// The executable scanner
// ------------------------------------------------------------------

/// Scans a CSI sequence that begins at `j` (so `s[j] == ESC`,
/// `s[j+1] == '['`).
fn scan_csi(s: &Vec<u8>, j: usize) -> (r: (AnsiType, usize))
    requires
        j + 2 <= s@.len(),
        s@[j as int] == 0x1b,
        s@[j + 1] == 0x5b,
    ensures
        r.0@ == spec_scan_csi(s@, j as int, j + 2, Seq::empty(), Seq::empty()).0,
        r.1 as int == spec_scan_csi(s@, j as int, j + 2, Seq::empty(), Seq::empty()).1,
{
    let ghost target = spec_scan_csi(s@, j as int, j + 2, Seq::empty(), Seq::empty());
    let slen = s.len();
    let mut args: Vec<Vec<u8>> = Vec::new();
    let mut cur: Vec<u8> = Vec::new();
    let mut i: usize = j + 2;
    assert(args.deep_view() =~= Seq::<Seq<u8>>::empty());
    assert(cur@ =~= Seq::<u8>::empty());
    while i < s.len()
        invariant
            j + 2 <= i <= s@.len(),
            s@.len() >= j + 2,
            target == spec_scan_csi(s@, j as int, j + 2, Seq::empty(), Seq::empty()),
            target == spec_scan_csi(s@, j as int, i as int, args.deep_view(), cur@),
        decreases s@.len() - i,
    {
        let b = s[i];
        if b == 0x3b {
            let ghost gargs = args.deep_view();
            let ghost gcur = cur@;
            args.push(cur);
            cur = Vec::new();
            proof {
                assert(args.deep_view() =~~= gargs.push(gcur));
                assert(cur@ =~= Seq::<u8>::empty());
            }
            i = i + 1;
        } else if 0x20 <= b && b < 0x40 {
            cur.push(b);
            i = i + 1;
        } else if 0x40 <= b && b < 0x80 {
            let ghost gargs = args.deep_view();
            let ghost gcur = cur@;
            args.push(cur);
            proof {
                assert(args.deep_view() =~~= gargs.push(gcur));
            }
            let t = AnsiType::CSI { kind: CSIType::Unknown(String::new()) };
            let fin = AnsiType::finish(b, t, args);
            return (fin, i + 1 - j);
        } else {
            return (
                AnsiType::Unknown("illegal byte in control sequence".to_string()),
                i + 1 - j,
            );
        }
    }
    (AnsiType::Incomplete, 0)
}

/// Scans the body of an OSC sequence that begins at `j`.
fn scan_osc(s: &Vec<u8>, j: usize) -> (r: (AnsiType, usize))
    requires
        j + 2 <= s@.len(),
        s@[j as int] == 0x1b,
        s@[j + 1] == 0x5d,
    ensures
        r.0@ == spec_scan_osc(s@, j as int, j + 2, Seq::empty(), Seq::empty()).0,
        r.1 as int == spec_scan_osc(s@, j as int, j + 2, Seq::empty(), Seq::empty()).1,
    decreases s@.len() - j, 0int,
{
    let ghost target = spec_scan_osc(s@, j as int, j + 2, Seq::empty(), Seq::empty());
    let slen = s.len();
    let mut args: Vec<Vec<u8>> = Vec::new();
    let mut cur: Vec<u8> = Vec::new();
    let mut i: usize = j + 2;
    assert(args.deep_view() =~= Seq::<Seq<u8>>::empty());
    assert(cur@ =~= Seq::<u8>::empty());
    while i < s.len()
        invariant
            j + 2 <= i <= s@.len(),
            s@.len() >= j + 2,
            s@[j as int] == 0x1b,
            target == spec_scan_osc(s@, j as int, j + 2, Seq::empty(), Seq::empty()),
            target == spec_scan_osc(s@, j as int, i as int, args.deep_view(), cur@),
        decreases s@.len() - i,
    {
        let b = s[i];
        if b == 0x1b {
            let (t2, used) = escape_from(s, i);
            proof {
                lemma_escape_at_bounds(s@, i as int);
            }
            if used == 0 {
                return (AnsiType::Incomplete, 0);
            }
            let is_st = match &t2 {
                AnsiType::ST => true,
                _ => false,
            };
            if is_st {
                let ghost gargs = args.deep_view();
                let ghost gcur = cur@;
                args.push(cur);
                proof {
                    assert(args.deep_view() =~~= gargs.push(gcur));
                }
                let t = AnsiType::OSC { kind: OSCType::Unknown(String::new()) };
                let fin = AnsiType::finish(0x07, t, args);
                return (fin, i + used - j);
            }
            i = i + used;
        } else if b == 0x3b {
            let ghost gargs = args.deep_view();
            let ghost gcur = cur@;
            args.push(cur);
            cur = Vec::new();
            proof {
                assert(args.deep_view() =~~= gargs.push(gcur));
                assert(cur@ =~= Seq::<u8>::empty());
            }
            i = i + 1;
        } else if b == 0x07 {
            let ghost gargs = args.deep_view();
            let ghost gcur = cur@;
            args.push(cur);
            proof {
                assert(args.deep_view() =~~= gargs.push(gcur));
            }
            let t = AnsiType::OSC { kind: OSCType::Unknown(String::new()) };
            let fin = AnsiType::finish(0x07, t, args);
            return (fin, i + 1 - j);
        } else if 0x20 <= b && b < 0x80 {
            cur.push(b);
            i = i + 1;
        } else {
            return (
                AnsiType::Unknown("illegal byte in operating system command".to_string()),
                i + 1 - j,
            );
        }
    }
    (AnsiType::Incomplete, 0)
}

/// Scans the body of an introducer with no parameter grammar.
fn scan_plain_body(s: &Vec<u8>, j: usize) -> (r: (AnsiType, usize))
    requires
        j + 2 <= s@.len(),
        s@[j as int] == 0x1b,
    ensures
        r.0@ == spec_scan_body(s@, j as int, j + 2).0,
        r.1 as int == spec_scan_body(s@, j as int, j + 2).1,
    decreases s@.len() - j, 0int,
{
    let ghost target = spec_scan_body(s@, j as int, j + 2);
    let slen = s.len();
    let mut i: usize = j + 2;
    while i < s.len()
        invariant
            j + 2 <= i <= s@.len(),
            s@.len() >= j + 2,
            s@[j as int] == 0x1b,
            target == spec_scan_body(s@, j as int, j + 2),
            target == spec_scan_body(s@, j as int, i as int),
        decreases s@.len() - i,
    {
        let b = s[i];
        if b == 0x1b {
            let (t2, used) = escape_from(s, i);
            proof {
                lemma_escape_at_bounds(s@, i as int);
            }
            if used == 0 {
                return (AnsiType::Incomplete, 0);
            }
            let is_st = match &t2 {
                AnsiType::ST => true,
                _ => false,
            };
            if is_st {
                return (AnsiType::ST, i + used - j);
            }
            i = i + used;
        } else if b == 0x3b {
            i = i + 1;
        } else {
            return (AnsiType::Unknown("illegal byte in escape sequence body".to_string()), i + 1
                - j);
        }
    }
    (AnsiType::Incomplete, 0)
}

/// Parses the escape sequence starting at position `j` of `s`.
pub(crate) fn escape_from(s: &Vec<u8>, j: usize) -> (r: (AnsiType, usize))
    requires
        j <= s@.len(),
    ensures
        r.0@ == spec_escape_at(s@, j as int).0,
        r.1 as int == spec_escape_at(s@, j as int).1,
    decreases s@.len() - j, 1int,
{
    if s.len() - j < 2 {
        return (AnsiType::Incomplete, 0);
    }
    if s[j] != 0x1b {
        return (AnsiType::Unknown("first byte is not the escape byte".to_string()), 1);
    }
    let b = s[j + 1];
    if b == 0x5b {
        scan_csi(s, j)
    } else if b == 0x5d {
        scan_osc(s, j)
    } else if b == 0x5c {
        (AnsiType::ST, 2)
    } else if b == 0x63 {
        (AnsiType::RIS, 2)
    } else if b == 0x4e || b == 0x4f || b == 0x50 || b == 0x58 || b == 0x2a || b == 0x5f {
        scan_plain_body(s, j)
    } else {
        (AnsiType::Unknown("unknown escape introducer byte".to_string()), 1)
    }
}

/// Parses one escape sequence from the front of `s`: the decoded token
/// and the number of bytes consumed, exactly as `spec_escape` states,
/// with `Incomplete` and 0 when the sequence is not finished yet.
pub fn escape(s: &Vec<u8>) -> (r: (AnsiType, usize))
    ensures
        r.0@ == spec_escape(s@).0,
        r.1 as int == spec_escape(s@).1,
{
    escape_from(s, 0)
}


// ------------------------------------------------------------------
// The shape of a well-formed CSI sequence, and what parsing one does
// ------------------------------------------------------------------

/// A CSI parameter byte (digits, `;`, `?` and the rest of 0x20..0x40).
pub open spec fn spec_is_csi_param(b: u8) -> bool {
    0x20 <= b < 0x40
}

/// A CSI final byte (0x40..0x80).
pub open spec fn spec_is_csi_final(b: u8) -> bool {
    0x40 <= b < 0x80
}

/// A structurally well-formed CSI sequence: ESC `[`, any number of
/// parameter bytes, one final byte.
pub open spec fn spec_wellformed_csi(s: Seq<u8>) -> bool {
    &&& s.len() >= 3
    &&& s[0] == 0x1b
    &&& s[1] == 0x5b
    &&& spec_is_csi_final(s[s.len() - 1])
    &&& forall|k: int| 2 <= k < s.len() - 1 ==> spec_is_csi_param(#[trigger] s[k])
}

proof fn lemma_scan_csi_wf(s: Seq<u8>, i: int, args: Seq<Seq<u8>>, cur: Seq<u8>)
    requires
        spec_wellformed_csi(s),
        2 <= i <= s.len() - 1,
    ensures
        spec_scan_csi(s, 0, i, args, cur).0 is CSI,
        spec_scan_csi(s, 0, i, args, cur).1 == s.len(),
    decreases s.len() - i,
{
    let b = s[i];
    if i == s.len() - 1 {
        assert(spec_is_csi_final(b));
    } else {
        assert(spec_is_csi_param(b));
        if b == 0x3b {
            lemma_scan_csi_wf(s, i + 1, args.push(cur), Seq::empty());
        } else {
            lemma_scan_csi_wf(s, i + 1, args, cur.push(b));
        }
    }
}

proof fn lemma_scan_csi_prefix(s: Seq<u8>, n: int, i: int, args: Seq<Seq<u8>>, cur: Seq<u8>)
    requires
        spec_wellformed_csi(s),
        0 <= n < s.len(),
        2 <= i <= n,
    ensures
        spec_scan_csi(s.take(n), 0, i, args, cur) == (SpecTok::Incomplete, 0int),
    decreases n - i,
{
    let t = s.take(n);
    if i < t.len() {
        let b = t[i];
        assert(b == s[i]);
        assert(spec_is_csi_param(b));
        if b == 0x3b {
            lemma_scan_csi_prefix(s, n, i + 1, args.push(cur), Seq::empty());
        } else {
            lemma_scan_csi_prefix(s, n, i + 1, args, cur.push(b));
        }
    }
}

/// Parsing a well-formed CSI sequence yields a CSI token and consumes
/// exactly the sequence's byte length; every proper prefix parses to
/// `Incomplete` with nothing consumed. So feeding the same bytes split
/// at any boundary yields `Incomplete` until the final byte arrives,
/// and then the identical token of a single-shot parse.
pub proof fn lemma_wellformed_csi_parse(s: Seq<u8>)
    requires
        spec_wellformed_csi(s),
    ensures
        spec_escape(s).0 is CSI,
        spec_escape(s).1 == s.len(),
        forall|n: int|
            0 <= n < s.len() ==> #[trigger] spec_escape(s.take(n)) == (SpecTok::Incomplete, 0int),
{
    lemma_scan_csi_wf(s, 2, Seq::empty(), Seq::empty());
    assert forall|n: int|
        0 <= n < s.len() implies #[trigger] spec_escape(s.take(n)) == (
        SpecTok::Incomplete,
        0int,
    ) by {
        let t = s.take(n);
        if n >= 2 {
            assert(t[0] == s[0] && t[1] == s[1]);
            lemma_scan_csi_prefix(s, n, 2, Seq::empty(), Seq::empty());
        }
    }
}

} // verus!
