//! Properties of the console that hold across operations.
use vstd::prelude::*;

use crate::app::{
    ActionKind, AppView, EffectView, HISTORY_LEN, Key, OverlayView, action_title, choice_list,
};
use crate::gpu::{
    GpuError, GpuView, fan_control_assignments, fan_index_of, fan_speed_assignments,
    fan_state_attribute, parse_rows, resolve_power,
};
use crate::plan::{default_steps, power_steps};
use crate::number::{Num, clamp, clamp_refused, num_lt};
use crate::text::{
    all_digits, decimal, digit_of, digits_value, is_digit, parse_unsigned, split, trim,
};

verus! {

/// A new message goes to the front of the history, the older ones follow
/// in order, and the history never holds more than `HISTORY_LEN` entries.
pub proof fn law_message_history(v: AppView, m: Seq<char>)
    requires
        v.history.len() <= HISTORY_LEN,
    ensures
        v.pushed(m).message == m,
        v.pushed(m).history[0] == m,
        v.pushed(m).history.len() == if v.history.len() < HISTORY_LEN {
            v.history.len() + 1
        } else {
            HISTORY_LEN as nat
        },
        forall|i: int|
            1 <= i < v.pushed(m).history.len() ==> #[trigger] v.pushed(m).history[i] == v.history[i
                - 1],
{
}

/// Every key keeps the console well formed: the focus stays on a listed GPU
/// and the history stays short.
pub proof fn law_keys_keep_well_formed(v: AppView, key: Key)
    requires
        v.well_formed(),
    ensures
        v.key_step(key).0.well_formed(),
{
    let n = v.gpus.len();
    if n > 0 {
        assert(((v.cursor + 1) % (n as int)) < n);
    }
}

/// A GPU query keeps the console well formed, puts the focus on a listed
/// GPU and keeps only listed GPUs selected.
pub proof fn law_refresh_keeps_focus(v: AppView, gpus: Seq<GpuView>)
    requires
        v.well_formed(),
        gpus.len() <= usize::MAX,
    ensures
        v.refreshed(gpus).well_formed(),
        gpus.len() > 0 ==> v.refreshed(gpus).cursor < gpus.len(),
        gpus.len() > 0 ==> forall|i: usize| #[trigger]
            v.refreshed(gpus).selected.contains(i) ==> i < gpus.len() && v.selected.contains(i),
{
}

/// Moving the focus down and then up comes back to the same GPU, and so
/// does moving up and then down.
pub proof fn law_focus_up_undoes_down(v: AppView)
    requires
        v.well_formed(),
        v.gpus.len() > 0,
    ensures
        v.moved_down().moved_up().cursor == v.cursor,
        v.moved_up().moved_down().cursor == v.cursor,
{
    let n = v.gpus.len() as int;
    let c = v.cursor as int;
    let d = v.moved_down();
    let u = v.moved_up();
    assert(d.gpus == v.gpus);
    assert(u.gpus == v.gpus);
    if c + 1 < n {
        vstd::arithmetic::div_mod::lemma_small_mod((c + 1) as nat, n as nat);
        assert(d.cursor == c + 1);
    } else {
        vstd::arithmetic::div_mod::lemma_mod_self_0(n);
        assert(d.cursor == 0);
    }
    assert(d.moved_up().cursor == c);
    if c > 0 {
        vstd::arithmetic::div_mod::lemma_small_mod(c as nat, n as nat);
        assert(u.cursor == c - 1);
    } else {
        vstd::arithmetic::div_mod::lemma_mod_self_0(n);
        assert(u.cursor == n - 1);
    }
    assert(u.moved_down().cursor == c);
}

/// Space flips the focused GPU in or out of the selection and leaves every
/// other GPU as it was.
pub proof fn law_toggle_flips_focus_only(v: AppView, i: usize)
    requires
        v.gpus.len() > 0,
    ensures
        v.toggled().selected.contains(i) == if i == v.cursor {
            !v.selected.contains(i)
        } else {
            v.selected.contains(i)
        },
{
}

/// Esc closes an open menu or prompt and asks for no GPU work.
pub proof fn law_escape_closes(v: AppView)
    requires
        v.overlay is Some,
    ensures
        v.key_step(Key::Esc).0 == v.with_overlay(None),
        v.key_step(Key::Esc).1 == EffectView::Nothing,
{
}

/// In a menu, Down and then Up comes back to the highlighted preset, and so
/// does Up and then Down.
pub proof fn law_menu_up_undoes_down(v: AppView, action: ActionKind, cursor: usize)
    requires
        v.overlay == Some(OverlayView::Choice { action, cursor }),
        cursor < choice_list(action).len(),
    ensures
        v.key_step(Key::Down).0.key_step(Key::Up).0.overlay == Some(
            OverlayView::Choice { action, cursor },
        ),
        v.key_step(Key::Up).0.key_step(Key::Down).0.overlay == Some(
            OverlayView::Choice { action, cursor },
        ),
{
    let n = choice_list(action).len() as int;
    let c = cursor as int;
    if c + 1 < n {
        vstd::arithmetic::div_mod::lemma_small_mod((c + 1) as nat, n as nat);
    } else {
        vstd::arithmetic::div_mod::lemma_mod_self_0(n);
    }
    if c > 0 {
        vstd::arithmetic::div_mod::lemma_small_mod(c as nat, n as nat);
    } else {
        vstd::arithmetic::div_mod::lemma_mod_self_0(n);
    }
}

/// In a prompt, a typed digit and then Backspace leave the text as it was.
pub proof fn law_backspace_undoes_digit(
    v: AppView,
    action: ActionKind,
    input: Seq<char>,
    c: char,
)
    requires
        v.overlay == Some(OverlayView::Prompt { action, input }),
        is_digit(c),
    ensures
        v.key_step(Key::Char(c)).0.key_step(Key::Backspace).0.overlay == Some(
            OverlayView::Prompt { action, input },
        ),
{
    assert(input.push(c).drop_last() =~= input);
}

/// A clamped power value lies between the limits: not below the minimum
/// and not above the maximum.
pub proof fn law_clamp_within_limits(w: Num, lo: Num, hi: Num)
    requires
        !clamp_refused(lo, hi),
        !(w is NaN),
    ensures
        !num_lt(clamp(w, lo, hi), lo),
        !num_lt(hi, clamp(w, lo, hi)),
{
}

proof fn lemma_decimal_digits(n: nat)
    ensures
        all_digits(decimal(n)),
        digits_value(decimal(n)) == n,
        decimal(n).len() >= 1,
    decreases n,
{
    if n >= 10 {
        lemma_decimal_digits(n / 10);
        let d = decimal(n);
        assert(d.drop_last() == decimal(n / 10));
        vstd::arithmetic::div_mod::lemma_fundamental_div_mod(n as int, 10);
        assert(digit_of(d.last()) == n % 10);
        assert(digits_value(d) == digits_value(decimal(n / 10)) * 10 + digit_of(d.last()));
        assert forall|i: int| 0 <= i < d.len() implies is_digit(#[trigger] d[i]) by {
            if i < d.len() - 1 {
                assert(d[i] == decimal(n / 10)[i]);
            }
        }
    } else {
        assert(decimal(n).drop_last() =~= Seq::<char>::empty());
        assert(digit_of(decimal(n).last()) == n);
        assert(digits_value(decimal(n)) == digits_value(decimal(n).drop_last()) * 10 + digit_of(
            decimal(n).last(),
        ));
    }
}

/// The fan number written into a fan attribute (`[fan:<n>]`) reads back
/// from a fan listing line.
pub proof fn law_fan_index_round_trip(n: u32)
    ensures
        fan_index_of("[fan:"@ + decimal(n as nat) + "]"@) == Some(n),
{
    reveal_strlit("[fan:");
    reveal_strlit("]");
    let d = decimal(n as nat);
    lemma_decimal_digits(n as nat);
    let line = "[fan:"@ + d + "]"@;
    let open = "[fan:"@;
    assert(crate::text::occurs_at(line, open, 0)) by {
        assert(line.subrange(0, 5) =~= open);
    }
    crate::text::lemma_find_first(line, open, 0);
    let rest = line.subrange(5, line.len() as int);
    assert(rest =~= d + "]"@);
    let close = "]"@;
    let k = d.len() as int;
    assert(crate::text::occurs_at(rest, close, k)) by {
        assert(rest.subrange(k, k + 1) =~= close);
    }
    assert forall|j: int| 0 <= j < k implies !crate::text::occurs_at(rest, close, j) by {
        assert(rest.subrange(j, j + 1)[0] == d[j]);
        assert(is_digit(d[j]));
    }
    crate::text::lemma_find_first(rest, close, k);
    assert(rest.take(k) =~= d);
    assert(crate::text::unsigned_body(d) == d) by {
        assert(is_digit(d[0]));
    }
    assert(parse_unsigned(d, u32::MAX as int) == Some(n as int));
}

/// Unless it stops, the work of a power value sets every target GPU once,
/// in target order, to the value resolved against that GPU's own limits
/// (watts, or a note that they need floating-point work).
pub proof fn law_power_per_target(gpus: Seq<GpuView>, t: Seq<usize>, value: Seq<char>)
    requires
        power_steps(gpus, t, value).1 is None,
    ensures
        power_steps(gpus, t, value).0.len() == t.len(),
        forall|i: int| 0 <= i < t.len() ==> #[trigger] t[i] < gpus.len(),
        forall|i: int|
            0 <= i < t.len() ==> {
                let g = gpus[t[i] as int];
                &&& (#[trigger] power_steps(gpus, t, value).0[i]).0 == g.index
                &&& power_steps(gpus, t, value).0[i].1 == resolve_power(
                    value,
                    g.default_w,
                    g.min_w,
                    g.max_w,
                )
            },
    decreases t.len(),
{
    if t.len() > 0 {
        let u = t.drop_last();
        law_power_per_target(gpus, u, value);
        let s = power_steps(gpus, t, value).0;
        let p = power_steps(gpus, u, value).0;
        let g = gpus[t.last() as int];
        assert(power_steps(gpus, u, value).1 is None);
        assert(t.last() < gpus.len());
        assert(s == p.push((g.index, resolve_power(value, g.default_w, g.min_w, g.max_w))));
        assert forall|i: int| 0 <= i < t.len() implies #[trigger] t[i] < gpus.len() by {
            if i < u.len() {
                assert(t[i] == u[i]);
            }
        }
        assert forall|i: int| 0 <= i < t.len() implies {
            let g = gpus[t[i] as int];
            &&& (#[trigger] s[i]).0 == g.index
            &&& s[i].1 == resolve_power(value, g.default_w, g.min_w, g.max_w)
        } by {
            if i < u.len() {
                assert(t[i] == u[i]);
                assert(s[i] == p[i]);
            }
        }
    }
}

/// Unless it stops, the default action sets every target GPU once, in
/// target order, to that GPU's default power limit.
pub proof fn law_default_per_target(gpus: Seq<GpuView>, t: Seq<usize>)
    requires
        default_steps(gpus, t).1 is None,
    ensures
        default_steps(gpus, t).0.len() == t.len(),
        forall|i: int| 0 <= i < t.len() ==> #[trigger] t[i] < gpus.len(),
        forall|i: int|
            0 <= i < t.len() ==> #[trigger] default_steps(gpus, t).0[i] == (
                gpus[t[i] as int].index,
                gpus[t[i] as int].default_w,
            ),
    decreases t.len(),
{
    if t.len() > 0 {
        let u = t.drop_last();
        law_default_per_target(gpus, u);
        let s = default_steps(gpus, t).0;
        let p = default_steps(gpus, u).0;
        assert(default_steps(gpus, u).1 is None);
        assert(t.last() < gpus.len());
        assert(s == p.push((gpus[t.last() as int].index, gpus[t.last() as int].default_w)));
        assert forall|i: int| 0 <= i < t.len() implies #[trigger] t[i] < gpus.len() by {
            if i < u.len() {
                assert(t[i] == u[i]);
            }
        }
        assert forall|i: int| 0 <= i < t.len() implies #[trigger] s[i] == (
            gpus[t[i] as int].index,
            gpus[t[i] as int].default_w,
        ) by {
            if i < u.len() {
                assert(t[i] == u[i]);
                assert(s[i] == p[i]);
            }
        }
    }
}


/// In a menu, a key other than Enter and Esc keeps the menu open on a row
/// within it: Down or `j` moves to the next row and Up or `k` to the
/// previous one, both wrapping around, and show the preset reached; any
/// other key keeps the row (a row past the end counts as the last) and the
/// message. The GPUs, focus, selection and quitting stay as they were, and
/// no GPU work is asked for.
pub proof fn law_menu_keys(v: AppView, key: Key, action: ActionKind, cursor: usize)
    requires
        v.overlay == Some(OverlayView::Choice { action, cursor }),
        key != Key::Enter,
        key != Key::Esc,
    ensures
        ({
            let choices = choice_list(action);
            let n = choices.len() as int;
            let c = if cursor < n - 1 {
                cursor as int
            } else {
                n - 1
            };
            let down = key == Key::Down || key == Key::Char('j');
            let up = key == Key::Up || key == Key::Char('k');
            let next = if down {
                (c + 1) % n
            } else if up {
                (c + n - 1) % n
            } else {
                c
            };
            let w = v.key_step(key).0;
            &&& 0 <= next < n
            &&& w.overlay == Some(OverlayView::Choice { action, cursor: next as usize })
            &&& (down || up) ==> w.message == action_title(action) + " preset: "@
                + choices[next].label
            &&& !(down || up) ==> w.message == v.message
            &&& w.gpus == v.gpus
            &&& w.cursor == v.cursor
            &&& w.selected == v.selected
            &&& w.quit == v.quit
            &&& v.key_step(key).1 == EffectView::Nothing
        }),
{
    let n = choice_list(action).len() as int;
    let c = if cursor < n - 1 {
        cursor as int
    } else {
        n - 1
    };
    if c == 0 {
        vstd::arithmetic::div_mod::lemma_small_mod((n - 1) as nat, n as nat);
    } else {
        vstd::arithmetic::div_mod::lemma_mod_add_multiples_vanish(c - 1, n);
        vstd::arithmetic::div_mod::lemma_small_mod((c - 1) as nat, n as nat);
    }
    if c + 1 < n {
        vstd::arithmetic::div_mod::lemma_small_mod((c + 1) as nat, n as nat);
    } else {
        vstd::arithmetic::div_mod::lemma_mod_self_0(n);
    }
}


/// A GPU query that lists `n > 0` GPUs keeps exactly the selected GPUs that
/// are still listed: index `i` is selected afterwards if and only if
/// `i < n` and it was selected before. A query that lists no GPUs leaves
/// the selection as it was.
pub proof fn law_refresh_keeps_listed_selection(v: AppView, gpus: Seq<GpuView>, i: usize)
    ensures
        gpus.len() > 0 ==> (v.refreshed(gpus).selected.contains(i) <==> (i < gpus.len()
            && v.selected.contains(i))),
        gpus.len() == 0 ==> v.refreshed(gpus).selected == v.selected,
        v.refreshed(gpus).gpus == gpus,
        gpus.len() > 0 && v.cursor < gpus.len() ==> v.refreshed(gpus).cursor == v.cursor,
        gpus.len() > 0 && v.cursor >= gpus.len() ==> v.refreshed(gpus).cursor == gpus.len() - 1,
        gpus.len() == 0 ==> v.refreshed(gpus).cursor == v.cursor,
        v.refreshed(gpus).overlay == v.overlay,
        v.refreshed(gpus).quit == v.quit,
{
}

/// Space on `n > 0` GPUs flips the focused GPU in or out of the selection
/// and moves the focus on to the next GPU, `(cursor + 1) mod n`, just as
/// Down does; the GPU list stays as it was.
pub proof fn law_toggle_advances_focus(v: AppView)
    requires
        v.well_formed(),
        v.gpus.len() > 0,
    ensures
        v.toggled().cursor == (v.cursor + 1) % (v.gpus.len() as int),
        v.toggled().cursor == v.moved_down().cursor,
        v.toggled().selected.contains(v.cursor) == !v.selected.contains(v.cursor),
        v.toggled().gpus == v.gpus,
{
    vstd::arithmetic::div_mod::lemma_mod_bound(v.cursor + 1, v.gpus.len() as int);
}

/// Each line of an inventory listing adds one GPU when it has at least
/// fourteen comma-separated fields and its first field is a `u32`; its
/// readings are the trimmed fields in the order of the inventory query
/// (index, name, temperature, utilization, clock, fan speed, memory
/// utilization, memory used, memory total, power draw, power limit,
/// default limit, minimum limit, maximum limit). A shorter line adds
/// nothing, and a complete line whose first field is not a `u32` is an
/// error.
pub proof fn law_inventory_row(ls: Seq<Seq<char>>, line: Seq<char>, prev: Seq<GpuView>)
    requires
        parse_rows(ls) == Ok::<Seq<GpuView>, GpuError>(prev),
    ensures
        ({
            let p = split(line, ',');
            let r = parse_rows(ls.push(line));
            &&& p.len() < 14 ==> r == Ok::<Seq<GpuView>, GpuError>(prev)
            &&& p.len() >= 14 && parse_unsigned(trim(p[0]), u32::MAX as int) is None ==> r == Err::<
                Seq<GpuView>,
                GpuError,
            >(GpuError::InvalidGpuIndex)
            &&& p.len() >= 14 && parse_unsigned(trim(p[0]), u32::MAX as int) is Some ==> {
                &&& r is Ok
                &&& r->Ok_0.len() == prev.len() + 1
                &&& r->Ok_0.take(prev.len() as int) == prev
                &&& {
                    let g = r->Ok_0[prev.len() as int];
                    &&& g.index == parse_unsigned(trim(p[0]), u32::MAX as int)->0
                    &&& g.name == trim(p[1])
                    &&& g.temperature_c == trim(p[2])
                    &&& g.gpu_utilization_pct == trim(p[3])
                    &&& g.graphics_clock_mhz == trim(p[4])
                    &&& g.fan_speed_pct == trim(p[5])
                    &&& g.memory_utilization_pct == trim(p[6])
                    &&& g.memory_used_mib == trim(p[7])
                    &&& g.memory_total_mib == trim(p[8])
                    &&& g.draw_w == trim(p[9])
                    &&& g.limit_w == trim(p[10])
                    &&& g.default_w == trim(p[11])
                    &&& g.min_w == trim(p[12])
                    &&& g.max_w == trim(p[13])
                    &&& g.fan_control_state is None
                }
            }
        }),
{
    let l = ls.push(line);
    assert(l.drop_last() =~= ls);
    assert(l.last() == line);
    let r = parse_rows(l);
    let p = split(line, ',');
    let d = crate::text::unsigned_body(trim(p[0]));
    if p.len() > 0 && all_digits(d) {
        crate::text::lemma_digits_value_nonneg(d);
    }
    let f = crate::gpu::row_fields(line);
    assert(f.len() == p.len());
    assert forall|k: int| 0 <= k < p.len() implies f[k] == trim(p[k]) by {}
    if p.len() >= 14 {
        assert(f[0] == trim(p[0]));
        assert(f[1] == trim(p[1]));
        assert(f[2] == trim(p[2]));
        assert(f[3] == trim(p[3]));
        assert(f[4] == trim(p[4]));
        assert(f[5] == trim(p[5]));
        assert(f[6] == trim(p[6]));
        assert(f[7] == trim(p[7]));
        assert(f[8] == trim(p[8]));
        assert(f[9] == trim(p[9]));
        assert(f[10] == trim(p[10]));
        assert(f[11] == trim(p[11]));
        assert(f[12] == trim(p[12]));
        assert(f[13] == trim(p[13]));
    }
    if split(line, ',').len() >= 14 && parse_unsigned(trim(split(line, ',')[0]), u32::MAX as int) is Some {
        assert(r->Ok_0.take(prev.len() as int) =~= prev);
    }
}

/// Enter on the custom row of a menu opens the prompt of the same action,
/// holding the focused GPU's power limit (for power) or fan speed (for
/// fans), `0` or `100` without a focused GPU, and asks for no GPU work.
pub proof fn law_custom_row_opens_same_prompt(v: AppView, action: ActionKind, cursor: usize)
    requires
        v.overlay == Some(OverlayView::Choice { action, cursor }),
        cursor < choice_list(action).len(),
        choice_list(action)[cursor as int].value == "custom"@,
    ensures
        v.key_step(Key::Enter).1 == EffectView::Nothing,
        v.key_step(Key::Enter).0.overlay == Some(
            OverlayView::Prompt {
                action,
                input: if action == ActionKind::Power {
                    if v.cursor < v.gpus.len() {
                        v.gpus[v.cursor as int].limit_w
                    } else {
                        "0"@
                    }
                } else {
                    if v.cursor < v.gpus.len() {
                        v.gpus[v.cursor as int].fan_speed_pct
                    } else {
                        decimal(100)
                    }
                },
            },
        ),
        v.key_step(Key::Enter).0.gpus == v.gpus,
        v.key_step(Key::Enter).0.selected == v.selected,
{
}

/// `x` is the fan-control assignment of a line of the index listing `ls`
/// whose trimmed text parses to one of the `targets`, with `state`.
pub open spec fn assigns_target(
    ls: Seq<Seq<char>>,
    targets: Seq<usize>,
    state: Seq<char>,
    x: Seq<char>,
) -> bool {
    exists|i: int|
        #![trigger ls[i]]
        0 <= i < ls.len() && {
            let t = trim(ls[i]);
            &&& t.len() > 0
            &&& parse_unsigned(t, usize::MAX as int) matches Some(n) && targets.contains(
                n as usize,
            )
            &&& x == fan_state_attribute(t) + "="@ + state
        }
}

/// Assignments that come in `-a <attribute>` pairs, each attribute that of
/// a listed line whose trimmed text parses to one of the `targets`.
pub open spec fn target_pairs(
    a: Seq<Seq<char>>,
    ls: Seq<Seq<char>>,
    targets: Seq<usize>,
    state: Seq<char>,
) -> bool {
    &&& a.len() % 2 == 0
    &&& forall|k: int|
        0 <= k < a.len() && k % 2 == 0 ==> #[trigger] a[k] == "-a"@ && assigns_target(
            ls,
            targets,
            state,
            a[k + 1],
        )
}

/// Every fan-control assignment of the command names a GPU of the index
/// listing whose index is one of the targets, with the requested state:
/// the assignments come in `-a <attribute>` pairs, and each attribute is
/// that of a listed line whose trimmed text parses to a target index. A
/// listed GPU that is not a target is never touched, whether fan control
/// is being taken or handed back.
pub proof fn law_fan_control_targets_only(ls: Seq<Seq<char>>, targets: Seq<usize>, state: Seq<char>)
    ensures
        target_pairs(fan_control_assignments(ls, targets, state), ls, targets, state),
    decreases ls.len(),
{
    let a = fan_control_assignments(ls, targets, state);
    if ls.len() > 0 {
        let u = ls.drop_last();
        law_fan_control_targets_only(u, targets, state);
        let prev = fan_control_assignments(u, targets, state);
        let t = trim(ls.last());
        let adds = parse_unsigned(t, usize::MAX as int) matches Some(n) && t.len() > 0
            && targets.contains(n as usize);
        if adds {
            assert(a == prev + seq!["-a"@, fan_state_attribute(t) + "="@ + state]);
        } else {
            assert(a == prev);
        }
        assert forall|k: int| 0 <= k < a.len() && k % 2 == 0 implies #[trigger] a[k] == "-a"@
            && assigns_target(ls, targets, state, a[k + 1]) by {
            if k < prev.len() {
                assert(a[k] == prev[k]);
                assert(a[k + 1] == prev[k + 1]);
                assert(prev[k] == "-a"@);
                assert(assigns_target(u, targets, state, prev[k + 1]));
                let i = choose|i: int|
                    #![trigger u[i]]
                    0 <= i < u.len() && {
                        let t = trim(u[i]);
                        &&& t.len() > 0
                        &&& parse_unsigned(t, usize::MAX as int) matches Some(n)
                            && targets.contains(n as usize)
                        &&& prev[k + 1] == fan_state_attribute(t) + "="@ + state
                    };
                assert(ls[i] == u[i]);
            } else {
                let i = ls.len() - 1;
                assert(ls[i] == ls.last());
            }
        }
    }
}


/// On `n > 0` GPUs, Down moves the focus to `(cursor + 1) mod n` and Up to
/// `(cursor + n - 1) mod n`; neither changes the GPUs, the selection or an
/// open menu.
pub proof fn law_focus_moves_wrap(v: AppView)
    requires
        v.well_formed(),
        v.gpus.len() > 0,
    ensures
        v.moved_down().cursor == (v.cursor + 1) % (v.gpus.len() as int),
        v.moved_up().cursor == (v.cursor + v.gpus.len() - 1) % (v.gpus.len() as int),
        v.moved_down().gpus == v.gpus && v.moved_up().gpus == v.gpus,
        v.moved_down().selected == v.selected && v.moved_up().selected == v.selected,
        v.moved_down().overlay == v.overlay && v.moved_up().overlay == v.overlay,
{
    let n = v.gpus.len() as int;
    let c = v.cursor as int;
    vstd::arithmetic::div_mod::lemma_mod_bound(c + 1, n);
    if c == 0 {
        vstd::arithmetic::div_mod::lemma_small_mod((n - 1) as nat, n as nat);
    } else {
        vstd::arithmetic::div_mod::lemma_mod_add_multiples_vanish(c - 1, n);
        vstd::arithmetic::div_mod::lemma_small_mod((c - 1) as nat, n as nat);
    }
}

/// Selecting all selects exactly the listed GPUs; clearing selects none.
/// Neither moves the focus or changes the GPUs.
pub proof fn law_select_all_and_clear(v: AppView, i: usize)
    ensures
        v.all_selected().selected.contains(i) <==> i < v.gpus.len(),
        !v.selection_cleared().selected.contains(i),
        v.all_selected().cursor == v.cursor && v.selection_cleared().cursor == v.cursor,
        v.all_selected().gpus == v.gpus && v.selection_cleared().gpus == v.gpus,
{
}

/// With no menu or prompt open: `q` and Esc quit, `r` asks for a GPU
/// query, `d` for the default settings, `p` and Enter open the power menu
/// on its balanced row, `f` the fan menu on its `100%` row, `a` selects
/// every listed GPU and `c` none.
pub proof fn law_main_keys(v: AppView)
    requires
        v.overlay is None,
    ensures
        v.key_step(Key::Char('q')).0.quit && v.key_step(Key::Esc).0.quit,
        v.key_step(Key::Char('r')) == (v, EffectView::Refresh),
        v.key_step(Key::Char('d')) == (v, EffectView::ApplyDefault),
        v.key_step(Key::Char('p')).0.overlay == Some(
            OverlayView::Choice { action: ActionKind::Power, cursor: 1 },
        ),
        v.key_step(Key::Enter).0.overlay == Some(
            OverlayView::Choice { action: ActionKind::Power, cursor: 1 },
        ),
        v.key_step(Key::Char('f')).0.overlay == Some(
            OverlayView::Choice { action: ActionKind::Fan, cursor: 4 },
        ),
        forall|i: usize|
            #[trigger] v.key_step(Key::Char('a')).0.selected.contains(i) <==> i < v.gpus.len(),
        forall|i: usize| !#[trigger] v.key_step(Key::Char('c')).0.selected.contains(i),
{
}

/// Enter on a preset row other than the custom one closes the menu and asks
/// for that preset's value to be applied for the menu's own action.
pub proof fn law_preset_row_applies(v: AppView, action: ActionKind, cursor: usize)
    requires
        v.overlay == Some(OverlayView::Choice { action, cursor }),
        cursor < choice_list(action).len(),
        choice_list(action)[cursor as int].value != "custom"@,
    ensures
        v.key_step(Key::Enter).0.overlay is None,
        v.key_step(Key::Enter).0.gpus == v.gpus,
        v.key_step(Key::Enter).0.selected == v.selected,
        v.key_step(Key::Enter).0.cursor == v.cursor,
        v.key_step(Key::Enter).1 == if action == ActionKind::Power {
            EffectView::ApplyPower(choice_list(action)[cursor as int].value)
        } else {
            EffectView::ApplyFan(choice_list(action)[cursor as int].value)
        },
{
}

/// `x` is the speed assignment of a fan named by a line of the listing.
pub open spec fn assigns_fan(ls: Seq<Seq<char>>, speed: u32, x: Seq<char>) -> bool {
    exists|i: int|
        #![trigger ls[i]]
        0 <= i < ls.len() && (fan_index_of(ls[i]) matches Some(f) && x == "[fan:"@ + decimal(
            f as nat,
        ) + "]/GPUTargetFanSpeed"@ + "="@ + decimal(speed as nat))
}

/// Assignments that come in `-a <attribute>` pairs, each setting a fan
/// named by the listing to `speed`.
pub open spec fn fan_pairs(a: Seq<Seq<char>>, ls: Seq<Seq<char>>, speed: u32) -> bool {
    &&& a.len() % 2 == 0
    &&& forall|k: int|
        0 <= k < a.len() && k % 2 == 0 ==> #[trigger] a[k] == "-a"@ && assigns_fan(
            ls,
            speed,
            a[k + 1],
        )
}

/// Every speed assignment of the fan command sets a fan that the fan
/// listing names to the requested speed, and each line that names a fan
/// adds one assignment.
pub proof fn law_fan_speed_listed_fans(ls: Seq<Seq<char>>, speed: u32)
    ensures
        fan_pairs(fan_speed_assignments(ls, speed), ls, speed),
        fan_speed_assignments(ls, speed).len() <= 2 * ls.len(),
    decreases ls.len(),
{
    let a = fan_speed_assignments(ls, speed);
    if ls.len() > 0 {
        let u = ls.drop_last();
        law_fan_speed_listed_fans(u, speed);
        let prev = fan_speed_assignments(u, speed);
        match fan_index_of(ls.last()) {
            Some(f) => {
                assert(a == prev + seq![
                    "-a"@,
                    "[fan:"@ + decimal(f as nat) + "]/GPUTargetFanSpeed"@ + "="@ + decimal(
                        speed as nat,
                    ),
                ]);
            },
            None => {
                assert(a == prev);
            },
        }
        assert forall|k: int| 0 <= k < a.len() && k % 2 == 0 implies #[trigger] a[k] == "-a"@
            && assigns_fan(ls, speed, a[k + 1]) by {
            if k < prev.len() {
                assert(a[k] == prev[k]);
                assert(a[k + 1] == prev[k + 1]);
                assert(prev[k] == "-a"@);
                assert(assigns_fan(u, speed, prev[k + 1]));
                let i = choose|i: int|
                    #![trigger u[i]]
                    0 <= i < u.len() && (fan_index_of(u[i]) matches Some(f) && prev[k + 1]
                        == "[fan:"@ + decimal(f as nat) + "]/GPUTargetFanSpeed"@ + "="@
                        + decimal(speed as nat));
                assert(ls[i] == u[i]);
            } else {
                let i = ls.len() - 1;
                assert(ls[i] == ls.last());
            }
        }
    }
}


/// In a prompt, a digit is typed at the end, and so is a decimal point for
/// power but not for fans; other characters leave the text as it is. Enter
/// closes the prompt and asks for the trimmed text to be applied for the
/// prompt's own action.
pub proof fn law_prompt_typing(v: AppView, action: ActionKind, input: Seq<char>, c: char)
    requires
        v.overlay == Some(OverlayView::Prompt { action, input }),
    ensures
        v.key_step(Key::Char(c)).0.overlay == Some(
            OverlayView::Prompt {
                action,
                input: if is_digit(c) || (action == ActionKind::Power && c == '.') {
                    input.push(c)
                } else {
                    input
                },
            },
        ),
        v.key_step(Key::Char(c)).1 == EffectView::Nothing,
        v.key_step(Key::Enter).0.overlay is None,
        v.key_step(Key::Enter).1 == if action == ActionKind::Power {
            EffectView::ApplyPower(trim(input))
        } else {
            EffectView::ApplyFan(trim(input))
        },
{
}

} // verus!
