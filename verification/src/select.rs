//! Prefix selection: which units of one buffered input are emitted, and the
//! bytes they render to.

use vstd::prelude::*;

use crate::HeadError;
use crate::config::Config;
use crate::config::Mode;
use crate::units::delimiter;
use crate::units::join_units;
use crate::units::split_units;
use crate::units::split_into_units;
use crate::units::units_view;
use crate::units::lemma_join_take_step;

verus! {

/// How many units are emitted: a non-negative count as itself, capped by
/// what the input holds; a negative count as all but the last `-count`,
/// which underflows when the input holds fewer than that.
pub open spec fn spec_effective_count(count: int, total: int) -> Result<int, HeadError> {
    if count >= 0 {
        Ok(
            if count <= total {
                count
            } else {
                total
            },
        )
    } else if total + count >= 0 {
        Ok(total + count)
    } else {
        Err(HeadError::Underflow)
    }
}

/// Everything one input contributes to the output, headers aside: in byte
/// mode the first `k` bytes verbatim, in line mode the first `k` units each
/// followed by the configured delimiter.
pub open spec fn spec_head_output(data: Seq<u8>, cfg: Config) -> Result<Seq<u8>, HeadError> {
    match cfg.mode {
        Mode::Bytes => match spec_effective_count(cfg.count as int, data.len() as int) {
            Ok(k) => Ok(data.take(k)),
            Err(e) => Err(e),
        },
        Mode::Lines => {
            let d = delimiter(cfg.zero_terminated);
            let units = split_units(data, d);
            match spec_effective_count(cfg.count as int, units.len() as int) {
                Ok(k) => Ok(join_units(units.take(k), d)),
                Err(e) => Err(e),
            }
        },
    }
}

/// Resolves a count against the number of units an input holds.
fn effective_count(count: i64, total: usize) -> (r: Result<usize, HeadError>)
    ensures
        match spec_effective_count(count as int, total as int) {
            Ok(k) => r matches Ok(x) && x == k && x <= total,
            Err(e) => r == Result::<usize, HeadError>::Err(e),
        },
{
    if count >= 0 {
        if count as u64 >= total as u64 {
            Ok(total)
        } else {
            Ok(count as usize)
        }
    } else {
        // The magnitude of a negative count, exact even for the smallest one.
        let mag: u64 = (-(count as i128)) as u64;
        if mag > total as u64 {
            Err(HeadError::Underflow)
        } else {
            Ok(total - (mag as usize))
        }
    }
}

/// Emits the first `byte_count` bytes of a buffered input, or all of it when
/// fewer are there.
pub fn process_bytes(data: &Vec<u8>, byte_count: usize) -> (out: Vec<u8>)
    ensures
        out@ == data@.take(
            if byte_count <= data@.len() {
                byte_count as int
            } else {
                data@.len() as int
            },
        ),
{
    let k = if byte_count <= data.len() {
        byte_count
    } else {
        data.len()
    };
    let mut out: Vec<u8> = Vec::new();
    let mut i: usize = 0;
    while i < k
        invariant
            0 <= i <= k <= data@.len(),
            out@ == data@.take(i as int),
        decreases k - i,
    {
        out.push(data[i]);
        proof {
            assert(data@.take(i + 1) =~= data@.take(i as int).push(data@[i as int]));
        }
        i = i + 1;
    }
    out
}

/// Emits the first `line_count` units of a split input, each followed by the
/// configured delimiter, or all units when fewer are there.
pub fn process_lines(units: &Vec<Vec<u8>>, line_count: usize, zero_terminated: bool) -> (out: Vec<
    u8,
>)
    ensures
        out@ == join_units(
            units_view(units@).take(
                if line_count <= units@.len() {
                    line_count as int
                } else {
                    units@.len() as int
                },
            ),
            delimiter(zero_terminated),
        ),
{
    let d: u8 = if zero_terminated {
        0
    } else {
        10
    };
    let k = if line_count <= units.len() {
        line_count
    } else {
        units.len()
    };
    let ghost uv = units_view(units@);
    let mut out: Vec<u8> = Vec::new();
    proof {
        assert(out@ =~= join_units(uv.take(0), d));
    }
    let mut i: usize = 0;
    while i < k
        invariant
            0 <= i <= k <= units@.len(),
            uv == units_view(units@),
            d == delimiter(zero_terminated),
            out@ == join_units(uv.take(i as int), d),
        decreases k - i,
    {
        let unit = &units[i];
        let m = unit.len();
        let ghost mid = out@;
        let mut j: usize = 0;
        while j < m
            invariant
                0 <= j <= m,
                m == unit@.len(),
                out@ == mid + unit@.take(j as int),
            decreases m - j,
        {
            out.push(unit[j]);
            proof {
                assert(unit@.take(j + 1) =~= unit@.take(j as int).push(unit@[j as int]));
                assert(mid + unit@.take(j + 1) =~= (mid + unit@.take(j as int)).push(
                    unit@[j as int],
                ));
            }
            j = j + 1;
        }
        out.push(d);
        proof {
            assert(unit@.take(m as int) =~= unit@);
            assert(uv[i as int] == unit@);
            lemma_join_take_step(uv, i as int, d);
            assert(out@ =~= join_units(uv.take(i as int), d) + uv[i as int] + seq![d]);
        }
        i = i + 1;
    }
    out
}

/// Selects and renders one buffered input's output under a configuration:
/// the value `spec_head_output` fixes, or the underflow error when a
/// negative count asks to drop more units than the input holds.
pub fn process(data: &Vec<u8>, cfg: &Config) -> (r: Result<Vec<u8>, HeadError>)
    ensures
        match spec_head_output(data@, *cfg) {
            Ok(o) => r matches Ok(v) && v@ == o,
            Err(e) => r == Result::<Vec<u8>, HeadError>::Err(e),
        },
{
    match cfg.mode {
        Mode::Bytes => match effective_count(cfg.count, data.len()) {
            Ok(k) => Ok(process_bytes(data, k)),
            Err(e) => Err(e),
        },
        Mode::Lines => {
            let d: u8 = if cfg.zero_terminated {
                0
            } else {
                10
            };
            let units = split_into_units(data, d);
            match effective_count(cfg.count, units.len()) {
                Ok(k) => Ok(process_lines(&units, k, cfg.zero_terminated)),
                Err(e) => Err(e),
            }
        },
    }
}

/// In line mode a non-negative count no larger than the number of units
/// emits exactly the first `count` units, each followed by the delimiter.
pub proof fn lemma_lines_prefix(data: Seq<u8>, cfg: Config)
    requires
        cfg.mode == Mode::Lines,
        0 <= cfg.count as int <= split_units(data, delimiter(cfg.zero_terminated)).len(),
    ensures
        spec_head_output(data, cfg) == Ok::<Seq<u8>, HeadError>(
            join_units(
                split_units(data, delimiter(cfg.zero_terminated)).take(cfg.count as int),
                delimiter(cfg.zero_terminated),
            ),
        ),
{
}

/// In line mode a count of at least the number of units emits the whole
/// input's units — asking for more than is there is not an error.
pub proof fn lemma_lines_all(data: Seq<u8>, cfg: Config)
    requires
        cfg.mode == Mode::Lines,
        cfg.count as int >= split_units(data, delimiter(cfg.zero_terminated)).len(),
    ensures
        spec_head_output(data, cfg) == Ok::<Seq<u8>, HeadError>(
            join_units(
                split_units(data, delimiter(cfg.zero_terminated)),
                delimiter(cfg.zero_terminated),
            ),
        ),
{
    let d = delimiter(cfg.zero_terminated);
    let units = split_units(data, d);
    assert(units.take(units.len() as int) =~= units);
}

/// In line mode a negative count `-k` with `k` at most the number of units
/// emits all but the last `k` units.
pub proof fn lemma_lines_all_but_last(data: Seq<u8>, cfg: Config)
    requires
        cfg.mode == Mode::Lines,
        cfg.count < 0,
        -(cfg.count as int) <= split_units(data, delimiter(cfg.zero_terminated)).len(),
    ensures
        spec_head_output(data, cfg) == Ok::<Seq<u8>, HeadError>(
            join_units(
                split_units(data, delimiter(cfg.zero_terminated)).take(
                    split_units(data, delimiter(cfg.zero_terminated)).len() + cfg.count as int,
                ),
                delimiter(cfg.zero_terminated),
            ),
        ),
{
}

/// In line mode a negative count `-k` with `k` larger than the number of
/// units fails with the underflow error, for inputs of any size.
pub proof fn lemma_lines_underflow(data: Seq<u8>, cfg: Config)
    requires
        cfg.mode == Mode::Lines,
        cfg.count < 0,
        -(cfg.count as int) > split_units(data, delimiter(cfg.zero_terminated)).len(),
    ensures
        spec_head_output(data, cfg) == Err::<Seq<u8>, HeadError>(HeadError::Underflow),
{
}

} // verus!
