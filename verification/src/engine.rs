//! The entry point: a loaded project, an attached log and the overrides over it.

use crate::counterfactual::{is_override_error, override_of, Override, OverrideView};
use crate::coverage::{is_report, CoverageReport};
use crate::diff::{
    default_eps, is_diff, law_identity_changes_no_channel, logged_at, matching, Counterfactual, Diff,
};
use crate::error::EvalError;
use crate::float::binary64::F64;
use crate::loader::Loaded;
use crate::log::{csv_table, is_log_table, is_table_error, reads_csv, InputSeries, Log};
use crate::path::{extension, extension_of};
use crate::project::script_function;
use crate::text::{joined, lowered, same};
use crate::trace::Trace;
use vstd::prelude::*;
use vstd::string::*;

verus! {

/// A loaded project, ready to run scenarios and counterfactual replays.
#[derive(Debug)]
pub struct Engine {
    /// The project.
    pub loaded: Loaded,
    /// The recorded run that a replay starts from.
    pub log: Option<Log>,
    /// The overridden channels, in the order they were given.
    pub overrides: Vec<Override>,
}

/// The settings of a replay.
#[derive(Debug, Clone, Copy, PartialEq, Eq, Structural)]
pub struct CounterfactualCfg {
    /// The ticks in a second.
    pub base_rate_hz: F64,
    /// The seconds to run; zero stands for those of the log.
    pub duration_s: F64,
}

/// What a replay starts from: its settings, the recorded series as they are, and the overrides
/// that are laid over them.
#[derive(Debug)]
pub struct CounterfactualPlan<'a> {
    /// The settings.
    pub cfg: CounterfactualCfg,
    /// The recorded series. Each channel is held at its recorded value.
    pub inputs: &'a Vec<InputSeries>,
    /// The overrides, in the order they were given.
    pub overrides: &'a Vec<Override>,
}

/// What a plan holds a channel at on an instant where no override is laid over the log: the
/// recorded value.
pub open spec fn held_number(log: Log, path: Seq<char>, t: F64) -> F64 {
    logged_at(log.channels@[matching(log, path)->Some_0.0 as int], t)
}

/// A replay without overrides whose channels come out as the plan holds them differs from the log
/// in no channel.
pub proof fn law_no_override_changes_nothing(
    engine: Engine,
    plan: CounterfactualPlan,
    trace: Trace,
    d: Diff,
)
    requires
        engine.log is Some,
        engine.overrides@.len() == 0,
        *plan.inputs == engine.log->Some_0.channels,
        *plan.overrides == engine.overrides,
        is_diff(d, engine.log->Some_0, trace, default_eps()),
        forall|p: Seq<char>| #[trigger]
            d.channels@.contains_key(p) ==> d.channels@[p].counterfactual@
                == trace.time@.map_values(|t: F64| held_number(engine.log->Some_0, p, t)),
    ensures
        plan.overrides@.len() == 0,
        forall|p: Seq<char>| #[trigger]
            d.channels@.contains_key(p) ==> !d.channels@[p].changed,
{
    let log = engine.log->Some_0;
    assert forall|p: Seq<char>| #[trigger] d.channels@.contains_key(p) implies d.channels@[p].logged@
        == d.channels@[p].counterfactual@ by {
        let series = log.channels@[matching(log, p)->Some_0.0 as int];
        assert(trace.time@.map_values(|t: F64| logged_at(series, t)) =~= trace.time@.map_values(
            |t: F64| held_number(log, p, t),
        ));
    }
    law_identity_changes_no_channel(d, log, trace, default_eps());
}

/// The greatest rate of a common grid.
pub const MAX_BASE_RATE: u64 = 1_000_000;

/// A rate as a whole number.
pub open spec fn whole_rate(hz: F64) -> Option<int> {
    if hz.is_finite() && hz.whole_toward(true) == hz.whole_toward(false) && 1 <= hz.whole_toward(true)
        <= MAX_BASE_RATE {
        Some(hz.whole_toward(true))
    } else {
        None
    }
}

fn whole_rate_of(hz: F64) -> (r: Option<u64>)
    ensures
        match whole_rate(hz) {
            Some(n) => r matches Some(m) && m == n,
            None => r is None,
        },
{
    if !hz.is_finite() {
        return None;
    }
    match (hz.whole_within(true, 1, 1_000_000), hz.whole_within(false, 1, 1_000_000)) {
        (Some(a), Some(b)) => {
            if a == b {
                Some(a as u64)
            } else {
                None
            }
        },
        _ => None,
    }
}

/// Whether every rate divides a base exactly.
pub open spec fn is_base(rates: Seq<F64>, b: int) -> bool {
    0 < b <= MAX_BASE_RATE && forall|i: int|
        0 <= i < rates.len() ==> divides(#[trigger] rates[i], b)
}

/// Whether a rate divides a base exactly.
pub open spec fn divides(rate: F64, b: int) -> bool {
    whole_rate(rate) matches Some(n) && b % n == 0
}

fn is_base_of(rates: &Vec<F64>, b: u64) -> (r: bool)
    requires
        0 < b <= MAX_BASE_RATE,
    ensures
        r == is_base(rates@, b as int),
{
    let mut i: usize = 0;
    while i < rates.len()
        invariant
            i <= rates.len(),
            0 < b <= MAX_BASE_RATE,
            forall|j: int| 0 <= j < i ==> divides(#[trigger] rates@[j], b as int),
        decreases rates.len() - i,
    {
        match whole_rate_of(rates[i]) {
            Some(n) => {
                if b % n != 0 {
                    assert(!divides(rates@[i as int], b as int));
                    return false;
                }
            },
            None => {
                assert(!divides(rates@[i as int], b as int));
                return false;
            },
        }
        i = i + 1;
    }
    true
}

/// The smallest grid that every rate divides exactly, if there are rates and one is
/// within the greatest rate.
pub fn lcm_rate_hz(rates: &Vec<F64>) -> (r: Option<u64>)
    ensures
        match r {
            Some(b) => rates@.len() > 0 && is_base(rates@, b as int) && forall|c: int| #[trigger]
                is_base(rates@, c) ==> b <= c,
            None => rates@.len() == 0 || forall|c: int| !(#[trigger] is_base(rates@, c)),
        },
{
    if rates.len() == 0 {
        return None;
    }
    let step: u64 = match whole_rate_of(rates[0]) {
        Some(n) => n,
        None => {
            assert forall|c: int| !(#[trigger] is_base(rates@, c)) by {
                assert(!divides(rates@[0], c));
            }
            return None;
        },
    };
    let mut k: u64 = 1;
    let mut b: u64 = step;
    proof {
        assert forall|c: int| #[trigger] is_base(rates@, c) implies b <= c by {
            assert(divides(rates@[0], c));
            if c < step {
                vstd::arithmetic::div_mod::lemma_small_mod(c as nat, step as nat);
            }
        }
    }
    while b <= 1_000_000
        invariant
            rates@.len() > 0,
            1 <= step <= MAX_BASE_RATE,
            whole_rate(rates@[0]) == Some(step as int),
            k >= 1,
            b == k * step,
            step <= b <= 2_000_000,
            forall|c: int| #[trigger] is_base(rates@, c) ==> b <= c,
        decreases 2_000_000 - b,
    {
        if is_base_of(rates, b) {
            return Some(b);
        }
        proof {
            assert forall|c: int| #[trigger] is_base(rates@, c) implies b + step <= c by {
                assert(divides(rates@[0], c));
                vstd::arithmetic::div_mod::lemma_fundamental_div_mod(c, step as int);
                let q = c / step as int;
                assert(c == step as int * q);
                if q == k as int {
                    assert(step as int * q == k * step) by (nonlinear_arith)
                        requires
                            q == k as int,
                    ;
                }
                assert(q >= k + 1) by (nonlinear_arith)
                    requires
                        step as int * q >= k * step,
                        q != k as int,
                        step >= 1,
                ;
                assert(step as int * q >= (k + 1) * step) by (nonlinear_arith)
                    requires
                        q >= k + 1,
                        step >= 1,
                ;
                assert((k + 1) * step == k * step + step) by (nonlinear_arith);
            }
            assert(k < 0xffff_ffff) by (nonlinear_arith)
                requires
                    b == k * step,
                    b <= 2_000_000,
                    step >= 1,
            ;
            assert((k + 1) * step == k * step + step) by (nonlinear_arith);
        }
        b = b + step;
        k = k + 1;
    }
    None
}

/// The rates of the periodic functions behind the first `n` scripts.
pub open spec fn periodic_rates(loaded: Loaded, n: nat) -> Seq<F64>
    decreases n,
{
    if n == 0 {
        Seq::empty()
    } else {
        let rest = periodic_rates(loaded, (n - 1) as nat);
        match script_function(loaded.project.scripts@, loaded.scripts@[n - 1].name@) {
            Some(f) => match loaded.triggers.rate_of(f) {
                Some(hz) => rest.push(hz),
                None => rest,
            },
            None => rest,
        }
    }
}

/// Whether a base is the smallest of some rates.
pub open spec fn is_least_base(rates: Seq<F64>, b: int) -> bool {
    is_base(rates, b) && forall|c: int| #[trigger] is_base(rates, c) ==> b <= c
}

/// Whether a rate is the default of replays: the smallest grid that every periodic function
/// divides exactly, and a hundred ticks in a second where there is none.
pub open spec fn is_default_rate(loaded: Loaded, hz: F64) -> bool {
    let rates = periodic_rates(loaded, loaded.scripts@.len());
    if rates.len() > 0 && exists|b: int| #[trigger] is_base(rates, b) {
        exists|b: int| #[trigger] is_least_base(rates, b) && hz == F64::nearest(b)
    } else {
        hz == F64 { bits: 0x4059_0000_0000_0000 }
    }
}

/// What an attached log comes to.
pub open spec fn log_attaches(
    r: Result<(), EvalError>,
    before: Engine,
    after: Engine,
    path: Seq<char>,
    content: Result<String, String>,
) -> bool {
    let ext = match extension_of(path) {
        Some(e) => Some(lowered(e)),
        None => None,
    };
    if ext == Some("csv"@) {
        match content {
            Err(why) => r matches Err(EvalError::MissingInput { channel }) && channel@ == path + ": "@
                + why@ && after == before,
            Ok(text) => if is_log_table(csv_table(text@)) {
                r is Ok && (after.log matches Some(log) && reads_csv(log, text@, path)) && after == (
                Engine { log: after.log, ..before })
            } else {
                (r matches Err(e) && is_table_error(e)) && after == before
            },
        }
    } else {
        (r matches Err(EvalError::UnsupportedConstruct { kind, at }) && at == 0 && kind@
            == refused_extension(ext)) && after == before
    }
}

/// Why a log with an extension is not read.
pub open spec fn refused_extension(ext: Option<Seq<char>>) -> Seq<char> {
    if ext == Some("ld"@) {
        "binary `.ld` log requires the `ld` feature; rebuild with --features ld (or supply a `.csv` log)"@
    } else {
        "log file extension `."@ + (match ext {
            Some(e) => e,
            None => "(none)"@,
        }) + "` (expected `.csv` or `.ld`)"@
    }
}

impl Engine {
    /// An engine over a loaded project, without a log and without overrides.
    pub fn load(loaded: Loaded) -> (r: Engine)
        ensures
            r.loaded == loaded,
            r.log is None,
            r.overrides@ == Seq::<Override>::empty(),
    {
        Engine { loaded, log: None, overrides: Vec::new() }
    }

    /// Attaches a recorded run, by the extension of its path. `content` is the text of the
    /// file, or why it could not be read. What is not read leaves the engine as it was.
    pub fn load_log(&mut self, path: &str, content: Result<String, String>) -> (r: Result<(), EvalError>)
        ensures
            log_attaches(r, *old(self), *final(self), path@, content),
    {
        let ext = extension(path);
        let (csv, ld): (bool, bool) = match &ext {
            Some(e) => (same(e.as_str(), "csv"), same(e.as_str(), "ld")),
            None => (false, false),
        };
        proof {
            reveal_strlit("csv");
            reveal_strlit("ld");
            assert("csv"@.len() != "ld"@.len());
        }
        if csv {
            match content {
                Err(why) => {
                    let head = joined(path, ": ");
                    return Err(EvalError::MissingInput { channel: joined(head.as_str(), why.as_str()) });
                },
                Ok(text) => {
                    match Log::from_csv(text.as_str(), path.to_owned()) {
                        Ok(log) => {
                            self.log = Some(log);
                            return Ok(());
                        },
                        Err(e) => {
                            return Err(e);
                        },
                    }
                },
            }
        }
        if ld {
            return Err(
                EvalError::UnsupportedConstruct {
                    kind: "binary `.ld` log requires the `ld` feature; rebuild with --features ld (or supply a `.csv` log)".to_owned(),
                    at: 0,
                },
            );
        }
        let found: String = match ext {
            Some(e) => e,
            None => "(none)".to_owned(),
        };
        let head = joined("log file extension `.", found.as_str());
        Err(
            EvalError::UnsupportedConstruct {
                kind: joined(head.as_str(), "` (expected `.csv` or `.ld`)"),
                at: 0,
            },
        )
    }

    /// The attached log.
    pub fn log(&self) -> (r: Option<&Log>)
        ensures
            match r {
                Some(l) => self.log == Some(*l),
                None => self.log is None,
            },
    {
        self.log.as_ref()
    }

    /// Adds an override to those given before. What is malformed adds none.
    pub fn override_channel(&mut self, spec_text: &str) -> (r: Result<(), EvalError>)
        ensures
            r is Err ==> *final(self) == *old(self),
            r is Ok ==> final(self).overrides@.len() == old(self).overrides@.len() + 1
                && final(self).overrides@.drop_last() == old(self).overrides@ && *final(self) == (
            Engine { overrides: final(self).overrides, ..*old(self) }),
            match override_of(spec_text@) {
                OverrideView::Const(c, v) => r is Ok && (
                final(self).overrides@.last() matches Override::Const { channel, value } && channel@ == c
                    && value == v),
                OverrideView::Expr(c, s) => r is Ok && (
                final(self).overrides@.last() matches Override::Expr { channel, source } && channel@ == c
                    && source@ == s),
                _ => r matches Err(e) && is_override_error(e, spec_text@),
            },
    {
        match Override::parse(spec_text) {
            Ok(o) => {
                self.overrides.push(o);
                assert(self.overrides@.drop_last() =~= old(self).overrides@);
                Ok(())
            },
            Err(e) => Err(e),
        }
    }

    fn default_counterfactual_rate(&self) -> (r: F64)
        ensures
            is_default_rate(self.loaded, r),
    {
        let mut rates: Vec<F64> = Vec::new();
        let scripts = &self.loaded.scripts;
        let mut i: usize = 0;
        assert(rates@ =~= periodic_rates(self.loaded, 0));
        while i < scripts.len()
            invariant
                i <= scripts.len(),
                scripts == &self.loaded.scripts,
                rates@ == periodic_rates(self.loaded, i as nat),
            decreases scripts.len() - i,
        {
            if let Some(f) = self.loaded.project.function_symbol_for_script(scripts[i].name.as_str()) {
                if let Some(hz) = self.loaded.triggers.periodic_rate(f) {
                    rates.push(hz);
                }
            }
            i = i + 1;
        }
        match lcm_rate_hz(&rates) {
            Some(b) => {
                assert(is_least_base(rates@, b as int));
                F64::from_u64(b)
            },
            None => F64::from_bits(0x4059_0000_0000_0000),
        }
    }

    /// What a replay of the attached log starts from. The recorded series are handed on
    /// unchanged. Without a log there is no replay.
    pub fn plan_counterfactual(&self) -> (r: Result<CounterfactualPlan<'_>, EvalError>)
        ensures
            match self.log {
                Some(log) => r matches Ok(plan) && is_default_rate(
                    self.loaded,
                    plan.cfg.base_rate_hz,
                ) && plan.cfg.duration_s == (F64 { bits: 0 }) && *plan.inputs == log.channels
                    && *plan.overrides == self.overrides,
                None => r matches Err(e) && is_missing_log(e),
            },
    {
        match &self.log {
            Some(log) => Ok(
                CounterfactualPlan {
                    cfg: CounterfactualCfg {
                        base_rate_hz: self.default_counterfactual_rate(),
                        duration_s: F64::from_bits(0),
                    },
                    inputs: &log.channels,
                    overrides: &self.overrides,
                },
            ),
            None => Err(missing_log()),
        }
    }

    /// Hands on what a replay gave, which the caller has executed. A replay starts from a log:
    /// without one there is no trace, whatever was executed.
    pub fn run_counterfactual(&self, replay: Result<Trace, EvalError>) -> (r: Result<Trace, EvalError>)
        ensures
            self.log is Some ==> r == replay,
            self.log is None ==> (r matches Err(e) && is_missing_log(e)),
    {
        if self.log.is_none() {
            return Err(missing_log());
        }
        replay
    }

    /// The trace of a replay and its difference from the attached log.
    pub fn run_counterfactual_diff(&self, replay: Result<Trace, EvalError>) -> (r: Result<
        Counterfactual,
        EvalError,
    >)
        ensures
            match self.log {
                None => r matches Err(e) && is_missing_log(e),
                Some(log) => match replay {
                    Err(e) => r == Err::<Counterfactual, EvalError>(e),
                    Ok(trace) => r matches Ok(c) && c.trace == trace && is_diff(
                        c.diff,
                        log,
                        trace,
                        default_eps(),
                    ),
                },
            },
    {
        match &self.log {
            None => Err(missing_log()),
            Some(log) => match replay {
                Err(e) => Err(e),
                Ok(trace) => {
                    let diff = Diff::between(log, &trace);
                    Ok(Counterfactual { trace, diff })
                },
            },
        }
    }

    /// What the scripts use, and how well each use is supported.
    pub fn coverage(&self) -> (r: CoverageReport)
        ensures
            is_report(
                r,
                self.loaded.scripts@,
                Some(self.loaded.project),
                Some(self.loaded.triggers),
                self.loaded.catalog,
            ),
    {
        CoverageReport::analyse_loaded(&self.loaded)
    }
}

/// Whether an error says that there is no log.
pub open spec fn is_missing_log(e: EvalError) -> bool {
    e matches EvalError::MissingInput { channel } && channel@
        == "counterfactual run needs a log: call load_log first"@
}

fn missing_log() -> (r: EvalError)
    ensures
        is_missing_log(r),
{
    EvalError::MissingInput {
        channel: "counterfactual run needs a log: call load_log first".to_owned(),
    }
}

} // verus!
