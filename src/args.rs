//! The model's settings, as looked up from the simulator's plus-arguments.

use vstd::prelude::*;
use vstd::string::StringSliceAdditionalSpecFns;
use vstd::utf8::encode_utf8;
use crate::driver::{DriverConfig, TraceWindow};
use crate::range::{decimal_of, parse_range, range_of};
use crate::shadow::{DEFAULT_MEM_BASE, DEFAULT_MEM_SIZE};

verus! {

/// Settings shared by the simulation entry points.
pub struct CommonArgs {
    /// Log level: trace, debug, info, warn or error.
    pub log_level: String,
    /// Vector length setting.
    pub vlen: u32,
    /// Data bus width in bits.
    pub dlen: u32,
}

/// The `u32` that `s` spells in decimal, as `u32::from_str` reads it.
pub open spec fn u32_of(s: Seq<u8>) -> Option<u32> {
    match decimal_of(s) {
        Some(v) => if v <= u32::MAX {
            Some(v as u32)
        } else {
            None
        },
        None => None,
    }
}

/// Reads a `u32` from `s`, or `default` when `s` is absent.
fn u32_or(s: Option<&str>, default: u32) -> (r: Option<u32>)
    ensures
        s is None ==> r == Some(default),
        s matches Some(t) ==> r == u32_of(t.spec_bytes()),
{
    match s {
        None => Some(default),
        Some(t) => {
            let b = t.as_bytes();
            assert(b@.subrange(0, b@.len() as int) =~= b@);
            match crate::range::parse_decimal(b, 0, b.len()) {
                Some(v) => {
                    if v <= u32::MAX as u64 {
                        Some(v as u32)
                    } else {
                        None
                    }
                },
                None => None,
            }
        },
    }
}

impl CommonArgs {
    /// The settings from the values given for `log-level`, `vlen` and
    /// `dlen`; an absent one takes its default: `info`, 32 and 32. Returns
    /// `None` when `vlen` or `dlen` is not a `u32` in decimal.
    pub fn from_plusargs(log_level: Option<&str>, vlen: Option<&str>, dlen: Option<&str>) -> (r:
        Option<CommonArgs>)
        ensures
            r is Some <==> (vlen is None || u32_of(vlen->0.spec_bytes()) is Some) && (dlen is None
                || u32_of(dlen->0.spec_bytes()) is Some),
            r matches Some(a) ==> {
                &&& log_level matches Some(l) ==> a.log_level@ == l@
                &&& log_level is None ==> a.log_level@ == "info"@
                &&& vlen is None ==> a.vlen == 32
                &&& vlen matches Some(v) ==> Some(a.vlen) == u32_of(v.spec_bytes())
                &&& dlen is None ==> a.dlen == 32
                &&& dlen matches Some(d) ==> Some(a.dlen) == u32_of(d.spec_bytes())
            },
    {
        let v = u32_or(vlen, 32);
        let d = u32_or(dlen, 32);
        match (v, d) {
            (Some(v), Some(d)) => {
                let level = match log_level {
                    Some(l) => l.to_owned(),
                    None => "info".to_owned(),
                };
                Some(CommonArgs { log_level: level, vlen: v, dlen: d })
            },
            _ => None,
        }
    }
}

/// Settings of the emulator entry point.
pub struct OfflineArgs {
    pub common_args: CommonArgs,
    /// Where the waveform is dumped.
    pub wave_path: String,
    /// The trace window, as `start`, `start,end` or `,end`.
    pub dump_range: String,
}

impl OfflineArgs {
    /// The settings from the shared ones and the values given for
    /// `dump-range` and `wave-path`.
    pub fn from_plusargs(common_args: CommonArgs, dump_range: &str, wave_path: &str) -> (r: Self)
        ensures
            r.common_args == common_args,
            r.dump_range@ == dump_range@,
            r.wave_path@ == wave_path@,
    {
        OfflineArgs { common_args, dump_range: dump_range.to_owned(), wave_path: wave_path.to_owned() }
    }

    /// The model's configuration: bus width `dlen`, the given timeout and
    /// seed, the default memory window, and, when `tracing`, the window read
    /// from `dump_range`. Returns `None` when `dlen` is not 8, 16 or 32, or
    /// when tracing and `dump_range` does not read as a window.
    pub fn driver_config(&self, timeout: u64, tracing: bool, seed: u64) -> (r: Option<DriverConfig>)
        ensures
            r is Some <==> (self.common_args.dlen == 8 || self.common_args.dlen == 16
                || self.common_args.dlen == 32) && (tracing ==> range_of(
                encode_utf8(self.dump_range@),
            ) is Some),
            r matches Some(c) ==> {
                &&& c.bus_width_bits == self.common_args.dlen
                &&& c.timeout == timeout
                &&& c.seed == seed
                &&& c.mem_base == DEFAULT_MEM_BASE
                &&& c.mem_size == DEFAULT_MEM_SIZE
                &&& !tracing ==> c.trace is None
                &&& tracing ==> (range_of(encode_utf8(self.dump_range@)) matches Some((s, e))
                    && c.trace == Some(TraceWindow { start: s, end: e }))
            },
    {
        let dlen = self.common_args.dlen;
        if dlen != 8 && dlen != 16 && dlen != 32 {
            return None;
        }
        let trace = if tracing {
            match parse_range(self.dump_range.as_str()) {
                Some((s, e)) => Some(TraceWindow { start: s, end: e }),
                None => {
                    return None;
                },
            }
        } else {
            None
        };
        Some(
            DriverConfig {
                bus_width_bits: dlen,
                timeout,
                trace,
                mem_base: DEFAULT_MEM_BASE,
                mem_size: DEFAULT_MEM_SIZE,
                seed,
            },
        )
    }
}

} // verus!
