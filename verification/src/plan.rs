//! The GPU work behind the power, fan and default actions, planned from the
//! console state: which GPUs get which setting, what stops the work, and the
//! message shown once it is done.
use vstd::prelude::*;

use crate::app::{ActionKind, App, AppView, ChoiceItem, ChoiceView, increasing};
use crate::gpu::{GpuView, PowerError, auto_fan, is_auto_fan_value, resolve_power, resolve_power_value};
use crate::text::{
    decimal, decimal_chars, parse_unsigned, parse_unsigned_chars, push_chars, push_str, string_from,
    string_of, trim, trim_str,
};

verus! {

broadcast use vstd::string::group_string_axioms;

/// Why an action's GPU work stops.
#[derive(Clone, Copy, Debug, PartialEq, Eq, Structural)]
pub enum AppError {
    /// A target is not a listed GPU.
    GpuIndexOutOfRange,
    /// The power value cannot be resolved for a target.
    InvalidPower(PowerError),
    /// The fan value is neither a speed nor `default`/`auto`.
    InvalidFanSpeed,
}

/// The listing of the action targets: the selected GPUs in increasing
/// order, or the focused one when nothing is selected.
pub open spec fn targets_of(v: AppView, t: Seq<usize>) -> bool {
    if v.selected.is_empty() {
        t == seq![v.cursor]
    } else {
        t.to_set() == v.selected && increasing(t)
    }
}

/// A power limit to set: the GPU index and the watts, or `NeedsFloat`
/// when the watts need floating-point work.
pub type PowerStepView = (u32, Result<Seq<char>, PowerError>);

/// The power limits to set, target by target, and what stops the work:
/// a target that is not a listed GPU, or a value or limit that is not a
/// number.
pub open spec fn power_steps(gpus: Seq<GpuView>, t: Seq<usize>, value: Seq<char>) -> (
    Seq<PowerStepView>,
    Option<AppError>,
)
    decreases t.len(),
{
    if t.len() == 0 {
        (Seq::empty(), None)
    } else {
        let (prev, stop) = power_steps(gpus, t.drop_last(), value);
        if stop is Some {
            (prev, stop)
        } else if t.last() >= gpus.len() {
            (prev, Some(AppError::GpuIndexOutOfRange))
        } else {
            let g = gpus[t.last() as int];
            let r = resolve_power(value, g.default_w, g.min_w, g.max_w);
            match r {
                Err(e) => if e is NeedsFloat {
                    (prev.push((g.index, r)), None)
                } else {
                    (prev, Some(AppError::InvalidPower(e)))
                },
                Ok(_) => (prev.push((g.index, r)), None),
            }
        }
    }
}

/// The default power limits to set, target by target, and whether a target
/// that is not a listed GPU stops the work.
pub open spec fn default_steps(gpus: Seq<GpuView>, t: Seq<usize>) -> (
    Seq<(u32, Seq<char>)>,
    Option<AppError>,
)
    decreases t.len(),
{
    if t.len() == 0 {
        (Seq::empty(), None)
    } else {
        let (prev, stop) = default_steps(gpus, t.drop_last());
        if stop is Some {
            (prev, stop)
        } else if t.last() >= gpus.len() {
            (prev, Some(AppError::GpuIndexOutOfRange))
        } else {
            let g = gpus[t.last() as int];
            (prev.push((g.index, g.default_w)), None)
        }
    }
}

pub open spec fn step_views(s: Seq<(u32, String)>) -> Seq<(u32, Seq<char>)> {
    s.map_values(|p: (u32, String)| (p.0, p.1@))
}

pub open spec fn result_view(r: Result<String, PowerError>) -> Result<Seq<char>, PowerError> {
    match r {
        Ok(w) => Ok(w@),
        Err(e) => Err(e),
    }
}

pub open spec fn power_step_views(s: Seq<(u32, Result<String, PowerError>)>) -> Seq<PowerStepView> {
    s.map_values(|p: (u32, Result<String, PowerError>)| (p.0, result_view(p.1)))
}

/// The work of a power value: for each step in order, set the GPU's power
/// limit to the watts (for `NeedsFloat`, to the watts computed with `f64`
/// for the target at the same position); then stop with `failure` if there
/// is one; otherwise query the GPUs again and show `message`.
#[derive(Debug)]
pub struct PowerPlan {
    pub targets: Vec<usize>,
    pub steps: Vec<(u32, Result<String, PowerError>)>,
    pub failure: Option<AppError>,
    pub message: String,
}

/// The work of a fan value.
#[derive(Debug)]
pub enum FanPlan {
    /// Hand fan control of the targets back to the driver.
    Auto { targets: Vec<usize>, message: String },
    /// Take manual control of the targets and set every fan to `speed`.
    Fixed { targets: Vec<usize>, speed: u32, message: String },
    /// The value is refused.
    Invalid(AppError),
}

/// The work of the default action: set each `(gpu index, default watts)`,
/// stop with `failure` if there is one; otherwise hand fan control of the
/// targets back to the driver, query the GPUs again and show `message`.
#[derive(Debug)]
pub struct DefaultPlan {
    pub targets: Vec<usize>,
    pub steps: Vec<(u32, String)>,
    pub failure: Option<AppError>,
    pub message: String,
}

impl App {
    /// Plans the GPU work of a power value.
    pub fn plan_power(&self, value: &str) -> (p: PowerPlan)
        ensures
            targets_of(self@, p.targets@),
            (power_step_views(p.steps@), p.failure) == power_steps(
                self@.gpus,
                p.targets@,
                value@,
            ),
            p.message@ == "Power set to "@ + trim(value@),
    {
        let targets = self.action_indices();
        let mut steps: Vec<(u32, Result<String, PowerError>)> = Vec::new();
        let mut failure: Option<AppError> = None;
        let mut i: usize = 0;
        proof {
            assert(targets@.take(0) =~= Seq::<usize>::empty());
            assert(power_step_views(steps@) =~= Seq::<PowerStepView>::empty());
            assert(targets_of(self@, targets@));
        }
        while i < targets.len()
            invariant
                i <= targets.len(),
                targets_of(self@, targets@),
                (power_step_views(steps@), failure) == power_steps(
                    self@.gpus,
                    targets@.take(i as int),
                    value@,
                ),
            decreases targets.len() - i,
        {
            let ghost t = targets@.take(i as int + 1);
            proof {
                assert(t.drop_last() =~= targets@.take(i as int));
                assert(t.last() == targets@[i as int]);
            }
            if failure.is_some() {
                i = i + 1;
                continue;
            }
            let ix = targets[i];
            if ix >= self.gpus.len() {
                failure = Some(AppError::GpuIndexOutOfRange);
            } else {
                let gpu = &self.gpus[ix];
                proof {
                    assert(self@.gpus[ix as int] == gpu@);
                }
                let r = resolve_power_value(
                    value,
                    gpu.default_w.as_str(),
                    gpu.min_w.as_str(),
                    gpu.max_w.as_str(),
                );
                let stop = match &r {
                    Err(PowerError::InvalidValue) => Some(PowerError::InvalidValue),
                    Err(PowerError::InvalidLimit) => Some(PowerError::InvalidLimit),
                    _ => None,
                };
                match stop {
                    Some(e) => {
                        failure = Some(AppError::InvalidPower(e));
                    },
                    None => {
                        let ghost before = steps@;
                        let ghost rv = result_view(r);
                        steps.push((gpu.index, r));
                        proof {
                            assert(power_step_views(steps@) =~= power_step_views(before).push(
                                (gpu.index, rv),
                            ));
                        }
                    },
                }
            }
            i = i + 1;
        }
        proof {
            assert(targets@.take(i as int) =~= targets@);
        }
        let mut message = string_from("Power set to ");
        push_chars(&mut message, &trim_str(value));
        PowerPlan { targets, steps, failure, message }
    }

    /// Plans the GPU work of a fan value: `default` or `auto` returns the
    /// fans to the driver, a whole percentage fixes them.
    pub fn plan_fan(&self, value: &str) -> (p: FanPlan)
        ensures
            match p {
                FanPlan::Auto { targets, message } => {
                    &&& auto_fan(value@)
                    &&& targets_of(self@, targets@)
                    &&& message@ == "Fan control returned to auto"@
                },
                FanPlan::Fixed { targets, speed, message } => {
                    &&& !auto_fan(value@)
                    &&& parse_unsigned(trim(value@), u32::MAX as int) == Some(speed as int)
                    &&& targets_of(self@, targets@)
                    &&& message@ == "Fan speed set to "@ + decimal(speed as nat)
                        + "% across discovered fan target(s)"@
                },
                FanPlan::Invalid(e) => {
                    &&& !auto_fan(value@)
                    &&& parse_unsigned(trim(value@), u32::MAX as int) is None
                    &&& e == AppError::InvalidFanSpeed
                },
            },
    {
        let targets = self.action_indices();
        if is_auto_fan_value(value) {
            return FanPlan::Auto { targets, message: string_from("Fan control returned to auto") };
        }
        let t = trim_str(value);
        match parse_unsigned_chars(&t, 0xffff_ffff) {
            None => FanPlan::Invalid(AppError::InvalidFanSpeed),
            Some(n) => {
                let speed = n as u32;
                let mut message = string_from("Fan speed set to ");
                push_chars(&mut message, &decimal_chars(speed as u64));
                push_str(&mut message, "% across discovered fan target(s)");
                FanPlan::Fixed { targets, speed, message }
            },
        }
    }

    /// Plans the GPU work of the default action.
    pub fn plan_default(&self) -> (p: DefaultPlan)
        ensures
            targets_of(self@, p.targets@),
            (step_views(p.steps@), p.failure) == default_steps(self@.gpus, p.targets@),
            p.message@ == "Applied default settings"@,
    {
        let targets = self.action_indices();
        let mut steps: Vec<(u32, String)> = Vec::new();
        let mut failure: Option<AppError> = None;
        let mut i: usize = 0;
        proof {
            assert(targets@.take(0) =~= Seq::<usize>::empty());
            assert(step_views(steps@) =~= Seq::<(u32, Seq<char>)>::empty());
        }
        while i < targets.len()
            invariant
                i <= targets.len(),
                targets_of(self@, targets@),
                (step_views(steps@), failure) == default_steps(self@.gpus, targets@.take(i as int)),
            decreases targets.len() - i,
        {
            let ghost t = targets@.take(i as int + 1);
            proof {
                assert(t.drop_last() =~= targets@.take(i as int));
                assert(t.last() == targets@[i as int]);
            }
            if failure.is_none() {
                let ix = targets[i];
                if ix >= self.gpus.len() {
                    failure = Some(AppError::GpuIndexOutOfRange);
                } else {
                    let gpu = &self.gpus[ix];
                    proof {
                        assert(self@.gpus[ix as int] == gpu@);
                    }
                    let ghost before = steps@;
                    steps.push((gpu.index, gpu.default_w.clone()));
                    proof {
                        assert(step_views(steps@) =~= step_views(before).push(
                            (gpu.index, gpu.default_w@),
                        ));
                    }
                }
            }
            i = i + 1;
        }
        proof {
            assert(targets@.take(i as int) =~= targets@);
        }
        DefaultPlan { targets, steps, failure, message: string_from("Applied default settings") }
    }
}

/// The detail line of a menu preset: for power with a focused GPU, the
/// preset's detail followed by the watts it gives that GPU when it
/// resolves; `float_watts` are those watts computed with `f64`, used when
/// they need floating-point work.
pub open spec fn choice_detail_text(
    v: AppView,
    action: ActionKind,
    c: ChoiceView,
    float_watts: Option<Seq<char>>,
) -> Seq<char> {
    match action {
        ActionKind::Power => if v.has_focus() {
            let g = v.focus();
            match resolve_power(c.value, g.default_w, g.min_w, g.max_w) {
                Ok(w) => c.detail + " Focused GPU: "@ + w + " W"@,
                Err(e) => if e is NeedsFloat {
                    match float_watts {
                        Some(w) => c.detail + " Focused GPU: "@ + w + " W"@,
                        None => c.detail,
                    }
                } else {
                    c.detail
                },
            }
        } else {
            c.detail
        },
        ActionKind::Fan => c.detail,
    }
}

pub open spec fn opt_str_view(o: Option<&str>) -> Option<Seq<char>> {
    match o {
        Some(s) => Some(s@),
        None => None,
    }
}

impl App {
    pub fn choice_detail(
        &self,
        action: ActionKind,
        choice: ChoiceItem,
        float_watts: Option<&str>,
    ) -> (r: String)
        ensures
            r@ == choice_detail_text(self@, action, choice@, opt_str_view(float_watts)),
    {
        match action {
            ActionKind::Power => match self.focused_gpu() {
                Some(gpu) => {
                    let watts: Option<String> = match resolve_power_value(
                        choice.value,
                        gpu.default_w.as_str(),
                        gpu.min_w.as_str(),
                        gpu.max_w.as_str(),
                    ) {
                        Ok(w) => Some(w),
                        Err(PowerError::NeedsFloat(_)) => match float_watts {
                            Some(w) => Some(string_from(w)),
                            None => None,
                        },
                        Err(_) => None,
                    };
                    match watts {
                        Some(w) => {
                            let mut m = string_from(choice.detail);
                            push_str(&mut m, " Focused GPU: ");
                            push_str(&mut m, w.as_str());
                            push_str(&mut m, " W");
                            m
                        },
                        None => string_from(choice.detail),
                    }
                },
                None => string_from(choice.detail),
            },
            ActionKind::Fan => string_from(choice.detail),
        }
    }
}

} // verus!
