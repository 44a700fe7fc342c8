//! The resolved configuration a run works under, and the resolver that
//! builds it from raw flag values.

use vstd::prelude::*;

use crate::HeadError;
use crate::count::spec_parse_count;
use crate::count::parse_count;

verus! {

/// What a count counts: bytes or delimiter-separated lines.
#[derive(Debug, Clone, Copy, PartialEq, Eq, Structural)]
pub enum Mode {
    Bytes,
    Lines,
}

/// When filename headers are printed: always, never, or only when more than
/// one input is given.
#[derive(Debug, Clone, Copy, PartialEq, Eq, Structural)]
pub enum HeaderPolicy {
    Always,
    Never,
    Auto,
}

/// One invocation's resolved configuration. A non-negative count selects the
/// first `count` units; a negative one all but the last `-count`.
#[derive(Debug, Clone, Copy, PartialEq, Eq, Structural)]
pub struct Config {
    pub mode: Mode,
    pub count: i64,
    pub header_policy: HeaderPolicy,
    pub zero_terminated: bool,
}

/// How the quiet and verbose flags resolve: verbose wins over quiet, and
/// with neither the policy is automatic.
pub open spec fn spec_header_policy(quiet: bool, verbose: bool) -> HeaderPolicy {
    if verbose {
        HeaderPolicy::Always
    } else if quiet {
        HeaderPolicy::Never
    } else {
        HeaderPolicy::Auto
    }
}

/// The count an invocation selects by: the byte count when one is given,
/// else the line count, else the default of ten lines.
pub open spec fn spec_count_arg(bytes_arg: Option<Seq<char>>, lines_arg: Option<Seq<char>>) -> Result<
    int,
    HeadError,
> {
    match bytes_arg {
        Some(s) => spec_parse_count(s),
        None => match lines_arg {
            Some(s) => spec_parse_count(s),
            None => Ok(10int),
        },
    }
}

pub open spec fn view_of_arg(arg: Option<&str>) -> Option<Seq<char>> {
    match arg {
        Some(s) => Some(s@),
        None => None,
    }
}

/// Resolves raw flag values into a configuration: byte mode exactly when a
/// byte count is given, the count read with its multiplier suffix, verbose
/// winning over quiet, and the delimiter chosen by the zero-terminated flag.
pub fn resolve_config(
    bytes_arg: Option<&str>,
    lines_arg: Option<&str>,
    quiet: bool,
    verbose: bool,
    zero_terminated: bool,
) -> (r: Result<Config, HeadError>)
    ensures
        match spec_count_arg(view_of_arg(bytes_arg), view_of_arg(lines_arg)) {
            Err(e) => r == Result::<Config, HeadError>::Err(e),
            Ok(v) => r matches Ok(c) && c.count == v && c.mode == (if bytes_arg is Some {
                Mode::Bytes
            } else {
                Mode::Lines
            }) && c.header_policy == spec_header_policy(quiet, verbose) && c.zero_terminated
                == zero_terminated,
        },
{
    let (mode, count) = match bytes_arg {
        Some(s) => match parse_count(s) {
            Ok(v) => (Mode::Bytes, v),
            Err(e) => {
                return Err(e);
            },
        },
        None => match lines_arg {
            Some(s) => match parse_count(s) {
                Ok(v) => (Mode::Lines, v),
                Err(e) => {
                    return Err(e);
                },
            },
            None => (Mode::Lines, 10i64),
        },
    };
    let header_policy = if verbose {
        HeaderPolicy::Always
    } else if quiet {
        HeaderPolicy::Never
    } else {
        HeaderPolicy::Auto
    };
    Ok(Config { mode, count, header_policy, zero_terminated })
}

/// Whether headers are printed for a run over `n_inputs` inputs.
pub open spec fn spec_headers_shown(policy: HeaderPolicy, n_inputs: int) -> bool {
    match policy {
        HeaderPolicy::Always => true,
        HeaderPolicy::Never => false,
        HeaderPolicy::Auto => n_inputs > 1,
    }
}

/// Decides header emission for a run over `n_inputs` inputs.
pub fn headers_shown(policy: HeaderPolicy, n_inputs: usize) -> (r: bool)
    ensures
        r == spec_headers_shown(policy, n_inputs as int),
{
    match policy {
        HeaderPolicy::Always => true,
        HeaderPolicy::Never => false,
        HeaderPolicy::Auto => n_inputs > 1,
    }
}

} // verus!
