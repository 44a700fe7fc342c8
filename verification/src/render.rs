//! Rendering a whole run: filename banners and the concatenation of every
//! input's selected content, in command-line order, up to the first failure.

use vstd::prelude::*;

use crate::HeadError;
use crate::config::Config;
use crate::config::HeaderPolicy;
use crate::config::headers_shown;
use crate::config::spec_headers_shown;
use crate::select::process;
use crate::select::spec_head_output;

verus! {

/// The name under which standard input is announced in a banner.
pub open spec fn spec_stdin_display() -> Seq<u8> {
    seq![115u8, 116u8, 97u8, 110u8, 100u8, 97u8, 114u8, 100u8, 32u8, 105u8, 110u8, 112u8, 117u8, 116u8]
}

/// The name a banner shows: `-` stands for standard input.
pub open spec fn spec_display_name(name: Seq<u8>) -> Seq<u8> {
    if name == seq![45u8] {
        spec_stdin_display()
    } else {
        name
    }
}

/// The banner announcing an input: `==> name <==`.
pub open spec fn spec_header_line(name: Seq<u8>) -> Seq<u8> {
    seq![61u8, 61u8, 62u8, 32u8] + spec_display_name(name) + seq![32u8, 60u8, 61u8, 61u8]
}

/// Appends all of `src` to `dst`.
fn push_all(dst: &mut Vec<u8>, src: &Vec<u8>)
    ensures
        final(dst)@ == old(dst)@ + src@,
{
    let ghost base = old(dst)@;
    proof {
        assert(dst@ =~= base + src@.take(0));
    }
    let n = src.len();
    let mut i: usize = 0;
    while i < n
        invariant
            0 <= i <= n,
            n == src@.len(),
            dst@ == base + src@.take(i as int),
        decreases n - i,
    {
        dst.push(src[i]);
        proof {
            assert(base + src@.take(i + 1) =~= (base + src@.take(i as int)).push(src@[i as int]));
        }
        i = i + 1;
    }
    proof {
        assert(src@.take(n as int) =~= src@);
    }
}

/// Renders the banner announcing an input.
pub fn header_line(name: &Vec<u8>) -> (out: Vec<u8>)
    ensures
        out@ == spec_header_line(name@),
{
    let mut out: Vec<u8> = Vec::new();
    out.push(61u8);
    out.push(61u8);
    out.push(62u8);
    out.push(32u8);
    let is_stdin = name.len() == 1 && name[0] == 45u8;
    if is_stdin {
        proof {
            assert(name@ =~= seq![45u8]);
        }
        out.push(115u8);
        out.push(116u8);
        out.push(97u8);
        out.push(110u8);
        out.push(100u8);
        out.push(97u8);
        out.push(114u8);
        out.push(100u8);
        out.push(32u8);
        out.push(105u8);
        out.push(110u8);
        out.push(112u8);
        out.push(117u8);
        out.push(116u8);
    } else {
        proof {
            if name@ == seq![45u8] {
                assert(name@.len() == 1 && name@[0] == 45u8);
            }
        }
        push_all(&mut out, name);
    }
    out.push(32u8);
    out.push(60u8);
    out.push(61u8);
    out.push(61u8);
    proof {
        assert(out@ =~= spec_header_line(name@));
    }
    out
}

/// The pairs (name, content) a run works over, as plain sequences.
pub open spec fn inputs_view(inputs: Seq<(Vec<u8>, Vec<u8>)>) -> Seq<(Seq<u8>, Seq<u8>)> {
    inputs.map_values(|p: (Vec<u8>, Vec<u8>)| (p.0@, p.1@))
}

/// What a run prints for a list of inputs, and the error that stopped it.
/// Per input: when headers are shown, a blank line — for every input but the
/// first — then the banner and a newline; then the selected content. The
/// first failing input keeps its banner, contributes no content, and ends
/// the run.
pub open spec fn spec_run_output(
    inputs: Seq<(Seq<u8>, Seq<u8>)>,
    cfg: Config,
    show: bool,
    first: bool,
) -> (Seq<u8>, Option<HeadError>)
    decreases inputs.len(),
{
    if inputs.len() == 0 {
        (Seq::empty(), None)
    } else {
        let hdr = if show {
            (if first {
                Seq::<u8>::empty()
            } else {
                seq![10u8]
            }) + spec_header_line(inputs[0].0) + seq![10u8]
        } else {
            Seq::<u8>::empty()
        };
        match spec_head_output(inputs[0].1, cfg) {
            Err(e) => (hdr, Some(e)),
            Ok(body) => {
                let rest = spec_run_output(inputs.skip(1), cfg, show, false);
                (hdr + body + rest.0, rest.1)
            },
        }
    }
}

/// Processes every input in order: banners as the header policy resolves
/// them over the number of inputs, each input's selected content, and the
/// error of the first input whose selection fails, which ends the run.
pub fn run(inputs: &Vec<(Vec<u8>, Vec<u8>)>, cfg: &Config) -> (r: (Vec<u8>, Option<HeadError>))
    ensures
        ({
            let spec = spec_run_output(
                inputs_view(inputs@),
                *cfg,
                spec_headers_shown(cfg.header_policy, inputs@.len() as int),
                true,
            );
            r.0@ == spec.0 && r.1 == spec.1
        }),
{
    let n = inputs.len();
    let show = headers_shown(cfg.header_policy, n);
    let ghost iv = inputs_view(inputs@);
    let ghost full = spec_run_output(iv, *cfg, show, true);
    let mut out: Vec<u8> = Vec::new();
    let mut i: usize = 0;
    proof {
        assert(iv.skip(0) =~= iv);
        assert(Seq::<u8>::empty() + full.0 =~= full.0);
    }
    while i < n
        invariant
            0 <= i <= n,
            n == inputs@.len(),
            iv == inputs_view(inputs@),
            show == spec_headers_shown(cfg.header_policy, n as int),
            full == spec_run_output(iv, *cfg, show, true),
            ({
                let rest = spec_run_output(iv.skip(i as int), *cfg, show, i == 0);
                full.0 == out@ + rest.0 && full.1 == rest.1
            }),
        decreases n - i,
    {
        let ghost rest = spec_run_output(iv.skip(i as int), *cfg, show, i == 0);
        let ghost hdr_spec = if show {
            (if i == 0 {
                Seq::<u8>::empty()
            } else {
                seq![10u8]
            }) + spec_header_line(iv[i as int].0) + seq![10u8]
        } else {
            Seq::<u8>::empty()
        };
        let ghost out0 = out@;
        if show {
            if i > 0 {
                out.push(10u8);
            }
            let h = header_line(&inputs[i].0);
            push_all(&mut out, &h);
            out.push(10u8);
        }
        proof {
            assert(iv[i as int].0 == inputs@[i as int].0@);
            assert(iv[i as int].1 == inputs@[i as int].1@);
            assert(out@ =~= out0 + hdr_spec);
            assert(iv.skip(i as int)[0] == iv[i as int]);
        }
        match process(&inputs[i].1, cfg) {
            Ok(b) => {
                push_all(&mut out, &b);
                proof {
                    assert(iv.skip(i as int).skip(1) =~= iv.skip(i + 1));
                    let next = spec_run_output(iv.skip(i + 1), *cfg, show, false);
                    assert(rest.0 == hdr_spec + b@ + next.0 && rest.1 == next.1);
                    assert(out@ =~= out0 + hdr_spec + b@);
                    assert(full.0 =~= out@ + next.0);
                }
            },
            Err(e) => {
                proof {
                    assert(rest.0 == hdr_spec && rest.1 == Some(e));
                    assert(full.0 =~= out@);
                }
                return (out, Some(e));
            },
        }
        i = i + 1;
    }
    proof {
        assert(iv.skip(n as int) =~= Seq::<(Seq<u8>, Seq<u8>)>::empty());
        assert(out@ + Seq::<u8>::empty() =~= out@);
    }
    (out, None)
}

/// The bodies a run emits with headers off, up to its first error.
pub open spec fn spec_bodies_output(inputs: Seq<(Seq<u8>, Seq<u8>)>, cfg: Config) -> (
    Seq<u8>,
    Option<HeadError>,
)
    decreases inputs.len(),
{
    if inputs.len() == 0 {
        (Seq::empty(), None)
    } else {
        match spec_head_output(inputs[0].1, cfg) {
            Err(e) => (Seq::empty(), Some(e)),
            Ok(body) => {
                let rest = spec_bodies_output(inputs.skip(1), cfg);
                (body + rest.0, rest.1)
            },
        }
    }
}

/// With exactly one input and the automatic header policy — neither quiet
/// nor verbose given — no banner is printed: the run's output is the
/// selected content alone.
pub proof fn lemma_auto_single_input_no_header(input: (Seq<u8>, Seq<u8>), cfg: Config)
    requires
        cfg.header_policy == HeaderPolicy::Auto,
    ensures
        ({
            let r = spec_run_output(
                seq![input],
                cfg,
                spec_headers_shown(cfg.header_policy, 1),
                true,
            );
            match spec_head_output(input.1, cfg) {
                Ok(body) => r.0 == body && r.1 is None,
                Err(e) => r.0 == Seq::<u8>::empty() && r.1 == Some(e),
            }
        }),
{
    let v = seq![input];
    let show = spec_headers_shown(cfg.header_policy, 1);
    assert(!show);
    assert(v.len() == 1 && v[0] == input);
    assert(v.skip(1) =~= Seq::<(Seq<u8>, Seq<u8>)>::empty());
    assert(spec_run_output(Seq::<(Seq<u8>, Seq<u8>)>::empty(), cfg, show, false) == (
    Seq::<u8>::empty(),
    None::<HeadError>,
    ));
    match spec_head_output(input.1, cfg) {
        Ok(body) => {
            assert(Seq::<u8>::empty() + body + Seq::<u8>::empty() =~= body);
        },
        Err(e) => {
        },
    }
}

/// The quiet policy suppresses banners however many inputs there are: the
/// run's output is exactly the selected bodies, in order, up to the first
/// error.
pub proof fn lemma_quiet_suppresses_headers(
    inputs: Seq<(Seq<u8>, Seq<u8>)>,
    cfg: Config,
    first: bool,
)
    requires
        cfg.header_policy == HeaderPolicy::Never,
    ensures
        spec_run_output(
            inputs,
            cfg,
            spec_headers_shown(cfg.header_policy, inputs.len() as int),
            first,
        ) == spec_bodies_output(inputs, cfg),
    decreases inputs.len(),
{
    assert(!spec_headers_shown(cfg.header_policy, inputs.len() as int));
    if inputs.len() == 0 {
    } else {
        match spec_head_output(inputs[0].1, cfg) {
            Err(e) => {
            },
            Ok(body) => {
                lemma_quiet_suppresses_headers(inputs.skip(1), cfg, false);
                let rest = spec_bodies_output(inputs.skip(1), cfg);
                assert(Seq::<u8>::empty() + body + rest.0 =~= body + rest.0);
            },
        }
    }
}

/// The verbose policy forces a banner even for a single input: the run's
/// output is the banner line, a newline, then the selected content.
pub proof fn lemma_verbose_forces_header(input: (Seq<u8>, Seq<u8>), cfg: Config)
    requires
        cfg.header_policy == HeaderPolicy::Always,
    ensures
        ({
            let r = spec_run_output(
                seq![input],
                cfg,
                spec_headers_shown(cfg.header_policy, 1),
                true,
            );
            match spec_head_output(input.1, cfg) {
                Ok(body) => r.0 == spec_header_line(input.0) + seq![10u8] + body && r.1 is None,
                Err(e) => r.0 == spec_header_line(input.0) + seq![10u8] && r.1 == Some(e),
            }
        }),
{
    let v = seq![input];
    let show = spec_headers_shown(cfg.header_policy, 1);
    assert(show);
    assert(v.len() == 1 && v[0] == input);
    assert(v.skip(1) =~= Seq::<(Seq<u8>, Seq<u8>)>::empty());
    assert(spec_run_output(Seq::<(Seq<u8>, Seq<u8>)>::empty(), cfg, show, false) == (
    Seq::<u8>::empty(),
    None::<HeadError>,
    ));
    let hdr = Seq::<u8>::empty() + spec_header_line(input.0) + seq![10u8];
    assert(hdr =~= spec_header_line(input.0) + seq![10u8]);
    match spec_head_output(input.1, cfg) {
        Ok(body) => {
            assert(hdr + body + Seq::<u8>::empty() =~= spec_header_line(input.0) + seq![10u8]
                + body);
        },
        Err(e) => {
        },
    }
}

/// With two or more inputs the automatic policy shows banners, and each
/// input's contribution starts with its banner on a line of its own — a
/// blank line before it for every input but the first — followed by the
/// input's selected content and then the rest of the run unchanged.
pub proof fn lemma_header_precedes_each_input(
    inputs: Seq<(Seq<u8>, Seq<u8>)>,
    cfg: Config,
    n_inputs: int,
    first: bool,
)
    requires
        inputs.len() > 0,
        cfg.header_policy == HeaderPolicy::Auto && n_inputs > 1 || cfg.header_policy
            == HeaderPolicy::Always,
    ensures
        spec_headers_shown(cfg.header_policy, n_inputs),
        ({
            let sep: Seq<u8> = if first {
                Seq::empty()
            } else {
                seq![10u8]
            };
            let r = spec_run_output(inputs, cfg, true, first);
            let banner = sep + spec_header_line(inputs[0].0) + seq![10u8];
            match spec_head_output(inputs[0].1, cfg) {
                Ok(body) => r.0 == banner + body + spec_run_output(
                    inputs.skip(1),
                    cfg,
                    true,
                    false,
                ).0 && r.1 == spec_run_output(inputs.skip(1), cfg, true, false).1,
                Err(e) => r.0 == banner && r.1 == Some(e),
            }
        }),
{
}

} // verus!
