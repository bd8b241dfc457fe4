//! Decisions of the capture service: its command line, and what it writes
//! for each batch of encoded NAL units.
//!
//! ```text
//! live-capture.exe --hwnd 0x1A2B3C --width 1920 --height 1200
//! ```

use vstd::prelude::*;

use crate::numparse::{parse_isize_radix, parse_u32_radix, signed_value, unsigned_value};
use crate::text::{chars_equal, chars_of, sub_chars};
use crate::video_ipc::{CodecParams, CodecParamsView, FrameMessage, NALUnit, NALUnitType, nal_views};
use crate::wire::extend_bytes;

verus! {

/// The service's arguments.
#[derive(Debug)]
pub struct CaptureArgs {
    /// Handle of the window to capture.
    pub hwnd: isize,
    pub width: u32,
    pub height: u32,
}

/// Why the command line was refused.
#[derive(Debug)]
pub enum ArgsError {
    /// The last flag has no value.
    MissingValue(String),
    /// A flag's value is not a number of its type (flag, value).
    InvalidNumber(String, String),
    UnknownArgument(String),
    MissingHwnd,
    MissingWidth,
    MissingHeight,
    /// Width and height must both be multiples of 16.
    NotMultipleOf16 { width: u32, height: u32 },
    /// The window handle must be non-zero.
    ZeroHwnd,
}

/// The arguments gathered so far: the last value given to each flag.
pub struct ArgScan {
    pub hwnd: Option<int>,
    pub width: Option<nat>,
    pub height: Option<nat>,
}

/// An argument error, as character sequences.
pub enum ArgsFailure {
    MissingValue(Seq<char>),
    InvalidNumber(Seq<char>, Seq<char>),
    UnknownArgument(Seq<char>),
    MissingHwnd,
    MissingWidth,
    MissingHeight,
    NotMultipleOf16(u32, u32),
    ZeroHwnd,
}

impl View for ArgsError {
    type V = ArgsFailure;

    open spec fn view(&self) -> ArgsFailure {
        match self {
            ArgsError::MissingValue(k) => ArgsFailure::MissingValue(k@),
            ArgsError::InvalidNumber(k, v) => ArgsFailure::InvalidNumber(k@, v@),
            ArgsError::UnknownArgument(k) => ArgsFailure::UnknownArgument(k@),
            ArgsError::MissingHwnd => ArgsFailure::MissingHwnd,
            ArgsError::MissingWidth => ArgsFailure::MissingWidth,
            ArgsError::MissingHeight => ArgsFailure::MissingHeight,
            ArgsError::NotMultipleOf16 { width, height } => ArgsFailure::NotMultipleOf16(*width, *height),
            ArgsError::ZeroHwnd => ArgsFailure::ZeroHwnd,
        }
    }
}

pub open spec fn flag_hwnd() -> Seq<char> {
    seq!['-', '-', 'h', 'w', 'n', 'd']
}

pub open spec fn flag_width() -> Seq<char> {
    seq!['-', '-', 'w', 'i', 'd', 't', 'h']
}

pub open spec fn flag_height() -> Seq<char> {
    seq!['-', '-', 'h', 'e', 'i', 'g', 'h', 't']
}

/// A window handle argument: hexadecimal after `0x`, decimal otherwise,
/// in the range of `isize`.
pub open spec fn hwnd_value(v: Seq<char>) -> Option<int> {
    let r = if v.len() >= 2 && v[0] == '0' && v[1] == 'x' {
        signed_value(v.subrange(2, v.len() as int), 16)
    } else {
        signed_value(v, 10)
    };
    match r {
        Some(h) => if isize::MIN <= h <= isize::MAX {
            Some(h)
        } else {
            None
        },
        None => None,
    }
}

/// A dimension argument: decimal, in the range of `u32`.
pub open spec fn dim_value(v: Seq<char>) -> Option<nat> {
    match unsigned_value(v, 10) {
        Some(n) => if n <= u32::MAX {
            Some(n)
        } else {
            None
        },
        None => None,
    }
}

/// Reads flag/value pairs from position `i` on.
pub open spec fn scan_args(args: Seq<Seq<char>>, i: int, st: ArgScan) -> Result<ArgScan, ArgsFailure>
    decreases args.len() - i,
{
    if i < 0 || i >= args.len() {
        Ok(st)
    } else if i + 1 >= args.len() {
        Err(ArgsFailure::MissingValue(args[i]))
    } else {
        let (k, v) = (args[i], args[i + 1]);
        if k == flag_hwnd() {
            match hwnd_value(v) {
                Some(h) => scan_args(args, i + 2, ArgScan { hwnd: Some(h), ..st }),
                None => Err(ArgsFailure::InvalidNumber(k, v)),
            }
        } else if k == flag_width() {
            match dim_value(v) {
                Some(n) => scan_args(args, i + 2, ArgScan { width: Some(n), ..st }),
                None => Err(ArgsFailure::InvalidNumber(k, v)),
            }
        } else if k == flag_height() {
            match dim_value(v) {
                Some(n) => scan_args(args, i + 2, ArgScan { height: Some(n), ..st }),
                None => Err(ArgsFailure::InvalidNumber(k, v)),
            }
        } else {
            Err(ArgsFailure::UnknownArgument(k))
        }
    }
}

/// The outcome of parsing a command line (without the program name):
/// each flag needs a value; all three flags are needed; width and height
/// must be multiples of 16; the handle must be non-zero.
pub open spec fn capture_args_of(args: Seq<Seq<char>>) -> Result<(int, u32, u32), ArgsFailure> {
    match scan_args(args, 0, ArgScan { hwnd: None, width: None, height: None }) {
        Err(e) => Err(e),
        Ok(st) => match (st.hwnd, st.width, st.height) {
            (None, _, _) => Err(ArgsFailure::MissingHwnd),
            (Some(_), None, _) => Err(ArgsFailure::MissingWidth),
            (Some(_), Some(_), None) => Err(ArgsFailure::MissingHeight),
            (Some(h), Some(w), Some(t)) => if w % 16 != 0 || t % 16 != 0 {
                Err(ArgsFailure::NotMultipleOf16(w as u32, t as u32))
            } else if h == 0 {
                Err(ArgsFailure::ZeroHwnd)
            } else {
                Ok((h, w as u32, t as u32))
            },
        },
    }
}

fn parse_hwnd(v: &[char]) -> (r: Option<isize>)
    ensures
        match r {
            Some(h) => hwnd_value(v@) == Some(h as int),
            None => hwnd_value(v@) is None,
        },
{
    if v.len() >= 2 && v[0] == '0' && v[1] == 'x' {
        let hex = sub_chars(v, 2, v.len());
        parse_isize_radix(hex.as_slice(), 16)
    } else {
        parse_isize_radix(v, 10)
    }
}

fn parse_dim(v: &[char]) -> (r: Option<u32>)
    ensures
        match r {
            Some(n) => dim_value(v@) == Some(n as nat),
            None => dim_value(v@) is None,
        },
{
    parse_u32_radix(v, 10)
}

/// The scan state of the flag values read so far.
pub open spec fn scan_of(h: Option<isize>, w: Option<u32>, t: Option<u32>) -> ArgScan {
    ArgScan {
        hwnd: match h {
            Some(x) => Some(x as int),
            None => None,
        },
        width: match w {
            Some(n) => Some(n as nat),
            None => None,
        },
        height: match t {
            Some(n) => Some(n as nat),
            None => None,
        },
    }
}

/// The values the flags give, in order, or the first error.
#[verifier::rlimit(30)]
fn scan_capture_args(args: &Vec<String>) -> (r: Result<(Option<isize>, Option<u32>, Option<u32>), ArgsError>)
    ensures
        r is Ok ==> scan_args(args.deep_view(), 0, ArgScan { hwnd: None, width: None, height: None })
            == Ok::<ArgScan, ArgsFailure>(scan_of(r->Ok_0.0, r->Ok_0.1, r->Ok_0.2)),
        r is Err ==> scan_args(args.deep_view(), 0, ArgScan { hwnd: None, width: None, height: None })
            == Err::<ArgScan, ArgsFailure>(r->Err_0@),
{
    let ghost av = args.deep_view();
    let fh: [char; 6] = ['-', '-', 'h', 'w', 'n', 'd'];
    let fw: [char; 7] = ['-', '-', 'w', 'i', 'd', 't', 'h'];
    let ft: [char; 8] = ['-', '-', 'h', 'e', 'i', 'g', 'h', 't'];
    assert(fh@ == flag_hwnd() && fw@ == flag_width() && ft@ == flag_height());
    let mut hwnd: Option<isize> = None;
    let mut width: Option<u32> = None;
    let mut height: Option<u32> = None;
    let mut i: usize = 0;
    let ghost init = ArgScan { hwnd: None, width: None, height: None };
    while i < args.len()
        invariant
            av == args.deep_view(),
            fh@ == flag_hwnd() && fw@ == flag_width() && ft@ == flag_height(),
            i <= args@.len(),
            init == (ArgScan { hwnd: None, width: None, height: None }),
            scan_args(av, 0, init) == scan_args(av, i as int, scan_of(hwnd, width, height)),
        decreases args@.len() - i,
    {
        let ghost cur = scan_of(hwnd, width, height);
        assert(av[i as int] == args@[i as int]@);
        if i + 1 >= args.len() {
            let k = args[i].clone();
            assert(scan_args(av, i as int, cur) == Err::<ArgScan, ArgsFailure>(ArgsFailure::MissingValue(k@)));
            assert(scan_args(av, 0, init) == Err::<ArgScan, ArgsFailure>(ArgsFailure::MissingValue(k@)));
            return Err(ArgsError::MissingValue(k));
        }
        let key = chars_of(args[i].as_str());
        let value = chars_of(args[i + 1].as_str());
        assert(av[i as int] == key@ && av[i + 1] == value@);
        if chars_equal(key.as_slice(), fh.as_slice()) {
            match parse_hwnd(value.as_slice()) {
                Some(h) => {
                    hwnd = Some(h);
                },
                None => {
                    let (k, v) = (args[i].clone(), args[i + 1].clone());
                    assert(scan_args(av, i as int, cur) == Err::<ArgScan, ArgsFailure>(
                        ArgsFailure::InvalidNumber(k@, v@),
                    ));
                    assert(scan_args(av, 0, init) == Err::<ArgScan, ArgsFailure>(
                        ArgsFailure::InvalidNumber(k@, v@),
                    ));
                    return Err(ArgsError::InvalidNumber(k, v));
                },
            }
        } else if chars_equal(key.as_slice(), fw.as_slice()) {
            match parse_dim(value.as_slice()) {
                Some(n) => {
                    width = Some(n);
                },
                None => return Err(ArgsError::InvalidNumber(args[i].clone(), args[i + 1].clone())),
            }
        } else if chars_equal(key.as_slice(), ft.as_slice()) {
            match parse_dim(value.as_slice()) {
                Some(n) => {
                    height = Some(n);
                },
                None => return Err(ArgsError::InvalidNumber(args[i].clone(), args[i + 1].clone())),
            }
        } else {
            let k = args[i].clone();
            assert(scan_args(av, i as int, cur) == Err::<ArgScan, ArgsFailure>(ArgsFailure::UnknownArgument(k@)));
            return Err(ArgsError::UnknownArgument(k));
        }
        i = i + 2;
    }
    Ok((hwnd, width, height))
}

/// Parses the service's command line (without the program name).
pub fn parse_capture_args(args: &Vec<String>) -> (r: Result<CaptureArgs, ArgsError>)
    ensures
        match r {
            Ok(a) => capture_args_of(args.deep_view()) == Ok::<(int, u32, u32), ArgsFailure>((a.hwnd as int, a.width, a.height)),
            Err(e) => capture_args_of(args.deep_view()) == Err::<(int, u32, u32), ArgsFailure>(e@),
        },
{
    let scanned = scan_capture_args(args);
    let (hwnd, width, height) = match scanned {
        Ok(t) => t,
        Err(e) => return Err(e),
    };
    let h = match hwnd {
        Some(h) => h,
        None => return Err(ArgsError::MissingHwnd),
    };
    let w = match width {
        Some(w) => w,
        None => return Err(ArgsError::MissingWidth),
    };
    let t = match height {
        Some(t) => t,
        None => return Err(ArgsError::MissingHeight),
    };
    if w % 16 != 0 || t % 16 != 0 {
        return Err(ArgsError::NotMultipleOf16 { width: w, height: t });
    }
    if h == 0 {
        return Err(ArgsError::ZeroHwnd);
    }
    Ok(CaptureArgs { hwnd: h, width: w, height: t })
}

// ── Encoder output ──────────────────────────────────────────────────────────

/// Index of the first unit of type `t`.
pub open spec fn first_unit(us: Seq<(NALUnitType, Seq<u8>)>, t: NALUnitType, from: int) -> Option<int>
    decreases us.len() - from,
{
    if from < 0 || from >= us.len() {
        None
    } else if us[from].0 == t {
        Some(from)
    } else {
        first_unit(us, t, from + 1)
    }
}

fn find_unit(us: &Vec<NALUnit>, t: NALUnitType) -> (r: Option<usize>)
    ensures
        match r {
            Some(i) => first_unit(nal_views(us@), t, 0) == Some(i as int) && i < us@.len(),
            None => first_unit(nal_views(us@), t, 0) is None,
        },
{
    let ghost vs = nal_views(us@);
    let mut i: usize = 0;
    while i < us.len()
        invariant
            vs == nal_views(us@),
            i <= us@.len(),
            first_unit(vs, t, 0) == first_unit(vs, t, i as int),
        decreases us@.len() - i,
    {
        assert(vs[i as int] == us@[i as int]@);
        if us[i].unit_type.code() == t.code() {
            assert(us@[i as int].unit_type == t) by {
                assert(us@[i as int].unit_type.spec_code() == t.spec_code());
            }
            return Some(i);
        }
        i = i + 1;
    }
    None
}

/// The codec parameters of the last batch that carried SPS and PPS, as
/// sent to the server.
pub struct CodecTracker {
    pub last_sps: Option<Vec<u8>>,
    pub last_pps: Option<Vec<u8>>,
}

/// The parameters a batch of units carries (first SPS, first PPS) when it
/// carries both.
pub open spec fn carried_params(us: Seq<(NALUnitType, Seq<u8>)>, width: u32, height: u32) -> Option<CodecParamsView> {
    match (first_unit(us, NALUnitType::SPS, 0), first_unit(us, NALUnitType::PPS, 0)) {
        (Some(i), Some(j)) => Some(CodecParamsView { sps: us[i].1, pps: us[j].1, width, height }),
        _ => None,
    }
}

fn copy_bytes(v: &Vec<u8>) -> (r: Vec<u8>)
    ensures
        r@ == v@,
{
    let mut r: Vec<u8> = Vec::new();
    extend_bytes(&mut r, v.as_slice());
    r
}

fn bytes_equal(x: &Vec<u8>, b: &Vec<u8>) -> (r: bool)
    ensures
        r == (x@ == b@),
{
    if x.len() != b.len() {
        return false;
    }
    let mut i: usize = 0;
    while i < x.len()
        invariant
            x@.len() == b@.len(),
            i <= x@.len(),
            forall|j: int| 0 <= j < i ==> x@[j] == b@[j],
        decreases x@.len() - i,
    {
        if x[i] != b[i] {
            assert(x@[i as int] != b@[i as int]);
            return false;
        }
        i = i + 1;
    }
    assert(x@ == b@);
    true
}

fn same_bytes(a: &Option<Vec<u8>>, b: &Vec<u8>) -> (r: bool)
    ensures
        r == (a.deep_view() == Some(b@)),
{
    match a {
        Some(x) => {
            assert(x.deep_view() =~= x@);
            bytes_equal(x, b)
        },
        None => false,
    }
}

impl CodecTracker {
    /// Nothing sent yet.
    pub fn new() -> (t: CodecTracker)
        ensures
            t.last_sps is None,
            t.last_pps is None,
    {
        CodecTracker { last_sps: None, last_pps: None }
    }

    /// The codec parameters to send for a batch of units: those it carries,
    /// when its SPS or PPS differs from what was last sent.
    pub fn params_to_send(&self, units: &Vec<NALUnit>, width: u32, height: u32) -> (r: Option<CodecParams>)
        ensures
            match carried_params(nal_views(units@), width, height) {
                Some(p) => if self.last_sps.deep_view() == Some(p.sps) && self.last_pps.deep_view()
                    == Some(p.pps) {
                    r is None
                } else {
                    r is Some && r->0@ == p
                },
                None => r is None,
            },
    {
        let sps = find_unit(units, NALUnitType::SPS);
        let pps = find_unit(units, NALUnitType::PPS);
        match (sps, pps) {
            (Some(i), Some(j)) => {
                assert(nal_views(units@)[i as int] == units@[i as int]@);
                assert(nal_views(units@)[j as int] == units@[j as int]@);
                let sps_changed = !same_bytes(&self.last_sps, &units[i].data);
                let pps_changed = !same_bytes(&self.last_pps, &units[j].data);
                if sps_changed || pps_changed {
                    Some(
                        CodecParams {
                            sps: copy_bytes(&units[i].data),
                            pps: copy_bytes(&units[j].data),
                            width,
                            height,
                        },
                    )
                } else {
                    None
                }
            },
            _ => None,
        }
    }

    /// Records parameters that were sent.
    pub fn mark_sent(&mut self, params: &CodecParams)
        ensures
            final(self).last_sps.deep_view() == Some(params@.sps),
            final(self).last_pps.deep_view() == Some(params@.pps),
    {
        let s = copy_bytes(&params.sps);
        let p = copy_bytes(&params.pps);
        assert(s.deep_view() =~= s@);
        assert(p.deep_view() =~= p@);
        self.last_sps = Some(s);
        self.last_pps = Some(p);
    }
}

/// The frame message for a batch of units: a keyframe when it holds an IDR
/// unit.
pub fn frame_message(units: Vec<NALUnit>, timestamp_us: u64) -> (f: FrameMessage)
    ensures
        f@.timestamp_us == timestamp_us,
        f@.is_keyframe == (first_unit(nal_views(units@), NALUnitType::IDR, 0) is Some),
        f@.nal_units == nal_views(units@),
{
    let is_keyframe = find_unit(&units, NALUnitType::IDR).is_some();
    FrameMessage { timestamp_us, is_keyframe, nal_units: units }
}

} // verus!
