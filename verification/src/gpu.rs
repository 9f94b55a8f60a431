//! GPU inventory rows, fan listings, display helpers for readings, and the
//! driver-tool command lines that query and change GPU settings.
use vstd::prelude::*;

use crate::number::{
    Parsed, clamp, clamp_refused, exact_integer, is_exact_integer, less, midpoint, parse_num,
    parse_number, show, show_clamped, show_midpoint,
};
use crate::text::{
    chars_eq_str, chars_of, find, find_chars, occurs_at, lines, lines_of, lower, lower_ascii, parse_unsigned,
    parse_unsigned_chars, push_str, split, split_chars, string_from, string_of, trim, trim_chars,
    trim_str, views, slice_chars, push_chars, decimal, decimal_chars,
};

verus! {

broadcast use vstd::string::group_string_axioms;

/// One GPU as reported by the inventory query.
#[derive(Clone, Debug)]
pub struct GpuState {
    pub index: u32,
    pub name: String,
    pub temperature_c: String,
    pub gpu_utilization_pct: String,
    pub graphics_clock_mhz: String,
    pub fan_speed_pct: String,
    pub memory_utilization_pct: String,
    pub memory_used_mib: String,
    pub memory_total_mib: String,
    pub draw_w: String,
    pub limit_w: String,
    pub default_w: String,
    pub min_w: String,
    pub max_w: String,
    pub fan_control_state: Option<String>,
}

/// The readings of a GPU as character sequences.
pub struct GpuView {
    pub index: u32,
    pub name: Seq<char>,
    pub temperature_c: Seq<char>,
    pub gpu_utilization_pct: Seq<char>,
    pub graphics_clock_mhz: Seq<char>,
    pub fan_speed_pct: Seq<char>,
    pub memory_utilization_pct: Seq<char>,
    pub memory_used_mib: Seq<char>,
    pub memory_total_mib: Seq<char>,
    pub draw_w: Seq<char>,
    pub limit_w: Seq<char>,
    pub default_w: Seq<char>,
    pub min_w: Seq<char>,
    pub max_w: Seq<char>,
    pub fan_control_state: Option<Seq<char>>,
}

pub open spec fn opt_view(o: Option<String>) -> Option<Seq<char>> {
    match o {
        Some(s) => Some(s@),
        None => None,
    }
}

impl View for GpuState {
    type V = GpuView;

    open spec fn view(&self) -> GpuView {
        GpuView {
            index: self.index,
            name: self.name@,
            temperature_c: self.temperature_c@,
            gpu_utilization_pct: self.gpu_utilization_pct@,
            graphics_clock_mhz: self.graphics_clock_mhz@,
            fan_speed_pct: self.fan_speed_pct@,
            memory_utilization_pct: self.memory_utilization_pct@,
            memory_used_mib: self.memory_used_mib@,
            memory_total_mib: self.memory_total_mib@,
            draw_w: self.draw_w@,
            limit_w: self.limit_w@,
            default_w: self.default_w@,
            min_w: self.min_w@,
            max_w: self.max_w@,
            fan_control_state: opt_view(self.fan_control_state),
        }
    }
}

/// What the GPU parsing and command planning can refuse.
#[derive(Clone, Copy, Debug, PartialEq, Eq, Structural)]
pub enum GpuError {
    /// An inventory row whose first field is not a GPU index.
    InvalidGpuIndex,
    /// The fan listing names no fan.
    NoFans,
}

pub open spec fn string_views(v: Seq<String>) -> Seq<Seq<char>> {
    v.map_values(|s: String| s@)
}

pub open spec fn gpu_views(v: Seq<GpuState>) -> Seq<GpuView> {
    v.map_values(|g: GpuState| g@)
}

// ---------------------------------------------------------------------------
// Inventory rows
// ---------------------------------------------------------------------------

/// The number of comma-separated fields of a complete inventory row.
pub const ROW_FIELDS: usize = 14;

/// The trimmed comma-separated fields of a row.
pub open spec fn row_fields(line: Seq<char>) -> Seq<Seq<char>> {
    split(line, ',').map_values(|f: Seq<char>| trim(f))
}

/// The GPU that a complete row describes, given its parsed index; its fan
/// control state is not part of the row.
pub open spec fn row_gpu(index: u32, f: Seq<Seq<char>>) -> GpuView {
    GpuView {
        index,
        name: f[1],
        temperature_c: f[2],
        gpu_utilization_pct: f[3],
        graphics_clock_mhz: f[4],
        fan_speed_pct: f[5],
        memory_utilization_pct: f[6],
        memory_used_mib: f[7],
        memory_total_mib: f[8],
        draw_w: f[9],
        limit_w: f[10],
        default_w: f[11],
        min_w: f[12],
        max_w: f[13],
        fan_control_state: None,
    }
}

/// The GPUs of an inventory listing, line by line: a line with fewer than
/// fourteen fields is skipped; a complete line whose first field is not a
/// `u32` is an error.
pub open spec fn parse_rows(ls: Seq<Seq<char>>) -> Result<Seq<GpuView>, GpuError>
    decreases ls.len(),
{
    if ls.len() == 0 {
        Ok(Seq::empty())
    } else {
        match parse_rows(ls.drop_last()) {
            Err(e) => Err(e),
            Ok(prev) => {
                let f = row_fields(ls.last());
                if f.len() < 14 {
                    Ok(prev)
                } else {
                    match parse_unsigned(f[0], u32::MAX as int) {
                        None => Err(GpuError::InvalidGpuIndex),
                        Some(ix) => Ok(prev.push(row_gpu(ix as u32, f))),
                    }
                }
            },
        }
    }
}

proof fn lemma_parse_rows_err(ls: Seq<Seq<char>>, k: int)
    requires
        0 <= k <= ls.len(),
        parse_rows(ls.take(k)) is Err,
    ensures
        parse_rows(ls) == parse_rows(ls.take(k)),
    decreases ls.len() - k,
{
    if k < ls.len() {
        let t = ls.take(k + 1);
        assert(t.drop_last() =~= ls.take(k));
        lemma_parse_rows_err(ls, k + 1);
    } else {
        assert(ls.take(k) =~= ls);
    }
}

fn trimmed_fields(line: &Vec<char>) -> (r: Vec<Vec<char>>)
    ensures
        views(r@) == row_fields(line@),
{
    let parts = split_chars(line, ',');
    let ghost pv = split(line@, ',');
    let mut r: Vec<Vec<char>> = Vec::new();
    let mut i: usize = 0;
    while i < parts.len()
        invariant
            i <= parts.len(),
            views(parts@) == pv,
            views(r@) == pv.take(i as int).map_values(|f: Seq<char>| trim(f)),
        decreases parts.len() - i,
    {
        let t = trim_chars(&parts[i]);
        let ghost before = r@;
        proof {
            assert(parts@[i as int]@ == pv[i as int]);
            assert(views(before).len() == before.len());
        }
        r.push(t);
        proof {
            let target = pv.take(i as int + 1).map_values(|f: Seq<char>| trim(f));
            assert(views(r@).len() == target.len());
            assert forall|k: int| 0 <= k < target.len() implies views(r@)[k] == target[k] by {
                if k < i {
                    assert(r@[k] == before[k]);
                    assert(views(before)[k] == before[k]@);
                }
            }
            assert(views(r@) =~= target);
        }
        i = i + 1;
    }
    proof {
        assert(pv.take(i as int) =~= pv);
    }
    r
}

fn row_to_gpu(index: u32, f: &Vec<Vec<char>>) -> (g: GpuState)
    requires
        f.len() >= 14,
    ensures
        g@ == row_gpu(index, views(f@)),
{
    GpuState {
        index,
        name: string_of(&f[1]),
        temperature_c: string_of(&f[2]),
        gpu_utilization_pct: string_of(&f[3]),
        graphics_clock_mhz: string_of(&f[4]),
        fan_speed_pct: string_of(&f[5]),
        memory_utilization_pct: string_of(&f[6]),
        memory_used_mib: string_of(&f[7]),
        memory_total_mib: string_of(&f[8]),
        draw_w: string_of(&f[9]),
        limit_w: string_of(&f[10]),
        default_w: string_of(&f[11]),
        min_w: string_of(&f[12]),
        max_w: string_of(&f[13]),
        fan_control_state: None,
    }
}

/// Reads the GPUs of an inventory listing (one comma-separated row per
/// line: index, name, temperature, utilization, clock, fan speed, memory
/// utilization, memory used, memory total, power draw, power limit, default
/// limit, minimum limit, maximum limit). The fan control state of each GPU
/// is left unknown: it comes from a query of its own.
pub fn parse_gpu_rows(output: &str) -> (r: Result<Vec<GpuState>, GpuError>)
    ensures
        match r {
            Ok(gpus) => parse_rows(lines(output@)) == Ok::<Seq<GpuView>, GpuError>(
                gpu_views(gpus@),
            ),
            Err(e) => parse_rows(lines(output@)) == Err::<Seq<GpuView>, GpuError>(e),
        },
{
    let chars = chars_of(output);
    let ls = lines_of(&chars);
    let ghost lv = lines(output@);
    let mut gpus: Vec<GpuState> = Vec::new();
    let mut i: usize = 0;
    proof {
        assert(lv.take(0) =~= Seq::<Seq<char>>::empty());
        assert(gpu_views(gpus@) =~= Seq::<GpuView>::empty());
    }
    while i < ls.len()
        invariant
            i <= ls.len(),
            views(ls@) == lv,
            lv == lines(output@),
            parse_rows(lv.take(i as int)) == Ok::<Seq<GpuView>, GpuError>(gpu_views(gpus@)),
        decreases ls.len() - i,
    {
        let ghost t = lv.take(i as int + 1);
        proof {
            assert(t.drop_last() =~= lv.take(i as int));
            assert(t.last() == ls@[i as int]@);
        }
        let f = trimmed_fields(&ls[i]);
        if f.len() >= ROW_FIELDS {
            proof {
                assert(views(f@)[0] == f@[0]@);
            }
            match parse_unsigned_chars(&f[0], 0xffff_ffff) {
                None => {
                    proof {
                        assert(parse_rows(t) == Err::<Seq<GpuView>, GpuError>(
                            GpuError::InvalidGpuIndex,
                        ));
                        lemma_parse_rows_err(lv, i as int + 1);
                    }
                    return Err(GpuError::InvalidGpuIndex);
                },
                Some(ix) => {
                    let g = row_to_gpu(ix as u32, &f);
                    let ghost before = gpus@;
                    gpus.push(g);
                    proof {
                        assert(gpu_views(gpus@) =~= gpu_views(before).push(g@));
                    }
                },
            }
        }
        i = i + 1;
    }
    proof {
        assert(lv.take(i as int) =~= lv);
    }
    Ok(gpus)
}

// ---------------------------------------------------------------------------
// Fan listing
// ---------------------------------------------------------------------------

/// The fan number of a fan listing line: the digits between the first
/// `[fan:` and the `]` after it.
pub open spec fn fan_index_of(line: Seq<char>) -> Option<u32> {
    match find(line, "[fan:"@) {
        None => None,
        Some(start) => {
            let rest = line.subrange(start + "[fan:"@.len(), line.len() as int);
            match find(rest, "]"@) {
                None => None,
                Some(end) => match parse_unsigned(rest.take(end), u32::MAX as int) {
                    Some(n) => Some(n as u32),
                    None => None,
                },
            }
        },
    }
}

fn fan_index_in(line: &Vec<char>) -> (r: Option<u32>)
    ensures
        r == fan_index_of(line@),
{
    let open = chars_of("[fan:");
    let close = chars_of("]");
    match find_chars(line, &open) {
        None => None,
        Some(start) => {
            let plen = open.len();
            let llen = line.len();
            proof {
                assert(occurs_at(line@, open@, start as int));
                assert(start + plen <= llen);
            }
            let from = start + plen;
            let rest = slice_chars(line, from, llen);
            match find_chars(&rest, &close) {
                None => None,
                Some(end) => {
                    let digits = slice_chars(&rest, 0, end);
                    proof {
                        assert(digits@ =~= rest@.take(end as int));
                    }
                    match parse_unsigned_chars(&digits, 0xffff_ffff) {
                        Some(n) => Some(n as u32),
                        None => None,
                    }
                },
            }
        },
    }
}

/// Reads the fan number from a line of the fan listing, such as
/// `[1] [fan:12] (Fan 12)`.
pub fn extract_fan_index(line: &str) -> (r: Option<u32>)
    ensures
        r == fan_index_of(line@),
{
    let v = chars_of(line);
    fan_index_in(&v)
}

// ---------------------------------------------------------------------------
// Readings
// ---------------------------------------------------------------------------

/// A percentage reading for display: `N/A` when the value says so in any
/// letter case, otherwise the value with `%` after it.
pub open spec fn percent_text(value: Seq<char>) -> Seq<char> {
    if lower(value) == "n/a"@ {
        "N/A"@
    } else {
        value + "%"@
    }
}

pub fn format_percent(value: &str) -> (r: String)
    ensures
        r@ == percent_text(value@),
{
    let v = chars_of(value);
    let l = lower_ascii(&v);
    if chars_eq_str(&l, "n/a") {
        string_from("N/A")
    } else {
        let mut r = string_from(value);
        push_str(&mut r, "%");
        r
    }
}

/// A fan value that hands fan control back to the driver.
pub open spec fn auto_fan(value: Seq<char>) -> bool {
    lower(trim(value)) == "default"@ || lower(trim(value)) == "auto"@
}

pub fn is_auto_fan_value(value: &str) -> (b: bool)
    ensures
        b == auto_fan(value@),
{
    let t = trim_str(value);
    let l = lower_ascii(&t);
    chars_eq_str(&l, "default") || chars_eq_str(&l, "auto")
}

// ---------------------------------------------------------------------------
// Driver-tool command lines
// ---------------------------------------------------------------------------

/// A program to run with its arguments; `display`, when present, is the
/// X display the program is given in its environment.
#[derive(Clone, Debug)]
pub struct Command {
    pub program: String,
    pub args: Vec<String>,
    pub display: Option<String>,
}

/// The GPU inventory query field list.
pub open spec fn inventory_fields() -> Seq<char> {
    "--query-gpu=index,name,temperature.gpu,utilization.gpu,clocks.current.graphics,fan.speed,utilization.memory,memory.used,memory.total,power.draw,power.limit,power.default_limit,power.min_limit,power.max_limit"@
}

/// The command that lists every GPU with its readings (see
/// [`parse_gpu_rows`]).
pub fn gpu_inventory_command() -> (c: Command)
    ensures
        c.program@ == "nvidia-smi"@,
        string_views(c.args@) == seq![inventory_fields(), "--format=csv,noheader,nounits"@],
        c.display is None,
{
    let mut args: Vec<String> = Vec::new();
    args.push(
        string_from(
            "--query-gpu=index,name,temperature.gpu,utilization.gpu,clocks.current.graphics,fan.speed,utilization.memory,memory.used,memory.total,power.draw,power.limit,power.default_limit,power.min_limit,power.max_limit",
        ),
    );
    args.push(string_from("--format=csv,noheader,nounits"));
    proof {
        assert(string_views(args@) =~= seq![inventory_fields(), "--format=csv,noheader,nounits"@]);
    }
    Command { program: string_from("nvidia-smi"), args, display: None }
}

/// The fan control attribute of a GPU: `[gpu:<index>]/GPUFanControlState`.
pub open spec fn fan_state_attribute(index: Seq<char>) -> Seq<char> {
    "[gpu:"@ + index + "]/GPUFanControlState"@
}

/// The command that reads the fan control state of GPU `index` on
/// `display`.
pub fn query_gpu_fan_state(display: &str, index: u32) -> (c: Command)
    ensures
        c.program@ == "nvidia-settings"@,
        string_views(c.args@) == seq![
            "-c"@,
            display@,
            "-q"@,
            fan_state_attribute(decimal(index as nat)),
            "-t"@,
        ],
        c.display is None,
{
    let mut attr = string_from("[gpu:");
    push_chars(&mut attr, &decimal_chars(index as u64));
    push_str(&mut attr, "]/GPUFanControlState");
    let mut args: Vec<String> = Vec::new();
    args.push(string_from("-c"));
    args.push(string_from(display));
    args.push(string_from("-q"));
    args.push(attr);
    args.push(string_from("-t"));
    proof {
        assert(string_views(args@) =~= seq![
            "-c"@,
            display@,
            "-q"@,
            fan_state_attribute(decimal(index as nat)),
            "-t"@,
        ]);
    }
    Command { program: string_from("nvidia-settings"), args, display: None }
}

/// The privileged command that sets the power limit of GPU `index` to
/// `watts`.
pub fn set_power_limit(index: u32, watts: &str) -> (c: Command)
    ensures
        c.program@ == "sudo"@,
        string_views(c.args@) == seq![
            "-n"@,
            "nvidia-smi"@,
            "-i"@,
            decimal(index as nat),
            "-pl"@,
            watts@,
        ],
        c.display is None,
{
    let mut args: Vec<String> = Vec::new();
    args.push(string_from("-n"));
    args.push(string_from("nvidia-smi"));
    args.push(string_from("-i"));
    args.push(string_of(&decimal_chars(index as u64)));
    args.push(string_from("-pl"));
    args.push(string_from(watts));
    proof {
        assert(string_views(args@) =~= seq![
            "-n"@,
            "nvidia-smi"@,
            "-i"@,
            decimal(index as nat),
            "-pl"@,
            watts@,
        ]);
    }
    Command { program: string_from("sudo"), args, display: None }
}

/// The command that lists the index of every GPU, one per line.
pub fn gpu_index_listing_command() -> (c: Command)
    ensures
        c.program@ == "nvidia-smi"@,
        string_views(c.args@) == seq!["--query-gpu=index"@, "--format=csv,noheader,nounits"@],
        c.display is None,
{
    let mut args: Vec<String> = Vec::new();
    args.push(string_from("--query-gpu=index"));
    args.push(string_from("--format=csv,noheader,nounits"));
    proof {
        assert(string_views(args@) =~= seq![
            "--query-gpu=index"@,
            "--format=csv,noheader,nounits"@,
        ]);
    }
    Command { program: string_from("nvidia-smi"), args, display: None }
}

/// The `-a` assignments that set the fan control state of the listed GPUs
/// chosen by `targets`: for each line of the GPU index listing whose trimmed
/// text reads as a `usize` found in `targets`, in listing order.
pub open spec fn fan_control_assignments(
    ls: Seq<Seq<char>>,
    targets: Seq<usize>,
    state: Seq<char>,
) -> Seq<Seq<char>>
    decreases ls.len(),
{
    if ls.len() == 0 {
        Seq::empty()
    } else {
        let prev = fan_control_assignments(ls.drop_last(), targets, state);
        let t = trim(ls.last());
        match parse_unsigned(t, usize::MAX as int) {
            Some(n) => if t.len() > 0 && targets.contains(n as usize) {
                prev + seq!["-a"@, fan_state_attribute(t) + "="@ + state]
            } else {
                prev
            },
            None => prev,
        }
    }
}

fn contains_index(v: &Vec<usize>, n: usize) -> (b: bool)
    ensures
        b == v@.contains(n),
{
    let mut i: usize = 0;
    while i < v.len()
        invariant
            i <= v.len(),
            forall|k: int| 0 <= k < i ==> v@[k] != n,
        decreases v.len() - i,
    {
        if v[i] == n {
            proof {
                assert(v@[i as int] == n);
            }
            return true;
        }
        i = i + 1;
    }
    false
}

/// The privileged command that turns manual fan control on (`enabled`) or
/// off for the GPUs in `targets`, given the GPU index listing (see
/// [`gpu_index_listing_command`]) and the X display.
pub fn set_manual_fan_control(
    display: &str,
    gpu_listing: &str,
    targets: &Vec<usize>,
    enabled: bool,
) -> (c: Command)
    ensures
        c.program@ == "sudo"@,
        string_views(c.args@) == seq!["-n"@, "nvidia-settings"@, "-c"@, display@]
            + fan_control_assignments(
            lines(gpu_listing@),
            targets@,
            if enabled {
                "1"@
            } else {
                "0"@
            },
        ),
        c.display is Some,
        c.display->0@ == display@,
{
    let state: &str = if enabled {
        "1"
    } else {
        "0"
    };
    let ghost sv = state@;
    let listing = chars_of(gpu_listing);
    let ls = lines_of(&listing);
    let ghost lv = lines(gpu_listing@);
    let mut args: Vec<String> = Vec::new();
    args.push(string_from("-n"));
    args.push(string_from("nvidia-settings"));
    args.push(string_from("-c"));
    args.push(string_from(display));
    let ghost head = seq!["-n"@, "nvidia-settings"@, "-c"@, display@];
    proof {
        assert(string_views(args@) =~= head);
        assert(lv.take(0) =~= Seq::<Seq<char>>::empty());
        assert(head + fan_control_assignments(lv.take(0), targets@, sv) =~= head);
    }
    let mut i: usize = 0;
    while i < ls.len()
        invariant
            i <= ls.len(),
            views(ls@) == lv,
            lv == lines(gpu_listing@),
            sv == state@,
            head == seq!["-n"@, "nvidia-settings"@, "-c"@, display@],
            string_views(args@) == head + fan_control_assignments(lv.take(i as int), targets@, sv),
        decreases ls.len() - i,
    {
        let ghost t = lv.take(i as int + 1);
        proof {
            assert(t.drop_last() =~= lv.take(i as int));
            assert(t.last() == ls@[i as int]@);
        }
        let ghost before = args@;
        let index = trim_chars(&ls[i]);
        if index.len() > 0 {
            match parse_unsigned_chars(&index, usize::MAX as u64) {
                Some(n) => {
                    if contains_index(targets, n as usize) {
                        args.push(string_from("-a"));
                        let mut attr = string_from("[gpu:");
                        push_chars(&mut attr, &index);
                        push_str(&mut attr, "]/GPUFanControlState");
                        push_str(&mut attr, "=");
                        push_str(&mut attr, state);
                        args.push(attr);
                        proof {
                            assert(attr@ =~= fan_state_attribute(index@) + "="@ + sv);
                            assert(string_views(args@) =~= string_views(before) + seq![
                                "-a"@,
                                fan_state_attribute(index@) + "="@ + sv,
                            ]);
                        }
                    }
                },
                None => {},
            }
        }
        proof {
            assert(string_views(args@) == head + fan_control_assignments(t, targets@, sv));
        }
        i = i + 1;
    }
    proof {
        assert(lv.take(i as int) =~= lv);
    }
    Command { program: string_from("sudo"), args, display: Some(string_from(display)) }
}

/// The command that lists the fans that `display` knows of.
pub fn fan_listing_command(display: &str) -> (c: Command)
    ensures
        c.program@ == "nvidia-settings"@,
        string_views(c.args@) == seq!["-c"@, display@, "-q"@, "fans"@],
        c.display is None,
{
    let mut args: Vec<String> = Vec::new();
    args.push(string_from("-c"));
    args.push(string_from(display));
    args.push(string_from("-q"));
    args.push(string_from("fans"));
    proof {
        assert(string_views(args@) =~= seq!["-c"@, display@, "-q"@, "fans"@]);
    }
    Command { program: string_from("nvidia-settings"), args, display: None }
}

/// The `-a` assignments that set the target speed of every fan named in a
/// fan listing, in listing order.
pub open spec fn fan_speed_assignments(ls: Seq<Seq<char>>, speed: u32) -> Seq<Seq<char>>
    decreases ls.len(),
{
    if ls.len() == 0 {
        Seq::empty()
    } else {
        let prev = fan_speed_assignments(ls.drop_last(), speed);
        match fan_index_of(ls.last()) {
            Some(fan) => prev + seq![
                "-a"@,
                "[fan:"@ + decimal(fan as nat) + "]/GPUTargetFanSpeed"@ + "="@ + decimal(
                    speed as nat,
                ),
            ],
            None => prev,
        }
    }
}

/// Some line of the listing names a fan.
pub open spec fn names_a_fan(ls: Seq<Seq<char>>) -> bool {
    exists|i: int| 0 <= i < ls.len() && (#[trigger] fan_index_of(ls[i])) is Some
}

/// The privileged command that sets every listed fan to `speed` percent,
/// given the fan listing (see [`fan_listing_command`]) and the X display;
/// an error when the listing names no fan.
pub fn set_all_fans(display: &str, fan_listing: &str, speed: u32) -> (r: Result<Command, GpuError>)
    ensures
        match r {
            Ok(c) => {
                &&& names_a_fan(lines(fan_listing@))
                &&& c.program@ == "sudo"@
                &&& string_views(c.args@) == seq!["-n"@, "nvidia-settings"@, "-c"@, display@]
                    + fan_speed_assignments(lines(fan_listing@), speed)
                &&& c.display is Some
                &&& c.display->0@ == display@
            },
            Err(e) => !names_a_fan(lines(fan_listing@)) && e == GpuError::NoFans,
        },
{
    let listing = chars_of(fan_listing);
    let ls = lines_of(&listing);
    let ghost lv = lines(fan_listing@);
    let mut args: Vec<String> = Vec::new();
    args.push(string_from("-n"));
    args.push(string_from("nvidia-settings"));
    args.push(string_from("-c"));
    args.push(string_from(display));
    let ghost head = seq!["-n"@, "nvidia-settings"@, "-c"@, display@];
    let speed_text = decimal_chars(speed as u64);
    let mut found = false;
    proof {
        assert(string_views(args@) =~= head);
        assert(lv.take(0) =~= Seq::<Seq<char>>::empty());
        assert(head + fan_speed_assignments(lv.take(0), speed) =~= head);
    }
    let mut i: usize = 0;
    while i < ls.len()
        invariant
            i <= ls.len(),
            views(ls@) == lv,
            lv == lines(fan_listing@),
            head == seq!["-n"@, "nvidia-settings"@, "-c"@, display@],
            speed_text@ == decimal(speed as nat),
            string_views(args@) == head + fan_speed_assignments(lv.take(i as int), speed),
            found == exists|k: int| 0 <= k < i && (#[trigger] fan_index_of(lv[k])) is Some,
        decreases ls.len() - i,
    {
        let ghost t = lv.take(i as int + 1);
        proof {
            assert(t.drop_last() =~= lv.take(i as int));
            assert(t.last() == ls@[i as int]@);
        }
        let ghost before = args@;
        match fan_index_in(&ls[i]) {
            Some(fan) => {
                found = true;
                args.push(string_from("-a"));
                let mut attr = string_from("[fan:");
                push_chars(&mut attr, &decimal_chars(fan as u64));
                push_str(&mut attr, "]/GPUTargetFanSpeed");
                push_str(&mut attr, "=");
                push_chars(&mut attr, &speed_text);
                args.push(attr);
                proof {
                    assert(string_views(args@) =~= string_views(before) + seq![
                        "-a"@,
                        "[fan:"@ + decimal(fan as nat) + "]/GPUTargetFanSpeed"@ + "="@ + decimal(
                            speed as nat,
                        ),
                    ]);
                }
            },
            None => {},
        }
        proof {
            assert(string_views(args@) == head + fan_speed_assignments(t, speed));
            assert(fan_index_of(lv[i as int]) == fan_index_of(ls@[i as int]@));
        }
        i = i + 1;
    }
    proof {
        assert(lv.take(i as int) =~= lv);
    }
    if !found {
        return Err(GpuError::NoFans);
    }
    Ok(Command { program: string_from("sudo"), args, display: Some(string_from(display)) })
}

// ---------------------------------------------------------------------------
// Power values
// ---------------------------------------------------------------------------

/// Why a power value is not resolved here.
#[derive(Clone, Copy, Debug, PartialEq, Eq, Structural)]
pub enum PowerError {
    /// The value is neither a preset name nor a number.
    InvalidValue,
    /// A power limit the value needs is not a number.
    InvalidLimit,
    /// The watts need floating-point work: a number that is not an
    /// [`exact_integer`], limits that `f64::clamp` refuses (the minimum
    /// above the maximum, or a NaN), or a text too long to read here. The
    /// caller computes them with `f64`.
    NeedsFloat(FloatStep),
}

/// The floating-point work a power value needs.
#[derive(Clone, Copy, Debug, PartialEq, Eq, Structural)]
pub enum FloatStep {
    /// `(min + max) / 2` of the limits, written with `{:.0}`.
    Midpoint,
    /// The value clamped between the limits, written with `{:.0}`.
    Clamp,
}

/// The preset name a power value spells: trimmed and lower-cased.
pub open spec fn power_key(value: Seq<char>) -> Seq<char> {
    lower(trim(value))
}

/// Texts short enough to be counted and padded without overflow.
pub open spec fn power_texts_fit(value: Seq<char>, min_w: Seq<char>, max_w: Seq<char>) -> bool {
    value.len() < usize::MAX / 64 && min_w.len() < usize::MAX / 64 && max_w.len() < usize::MAX
        / 64
}

/// The watts a power value stands for on a GPU with the given default,
/// minimum and maximum limits: `min`/`eco`, `default` and
/// `max`/`performance` give that limit as written; `balanced` gives the
/// midpoint of the minimum and maximum; any other value must be a number
/// and is clamped between minimum and maximum. Computed numbers are whole
/// watts, rounded half to even. They are given here only where every
/// number involved is an [`exact_integer`] (and, for clamping, the limits
/// allow it), so that `f64` reads, adds, halves and clamps them without
/// rounding and the result is the one `f64` gives; elsewhere the answer is
/// `NeedsFloat` with the step to do in floating point.
pub open spec fn resolve_power(
    value: Seq<char>,
    default_w: Seq<char>,
    min_w: Seq<char>,
    max_w: Seq<char>,
) -> Result<Seq<char>, PowerError> {
    let k = power_key(value);
    if k == "min"@ || k == "eco"@ {
        Ok(min_w)
    } else if k == "balanced"@ {
        if power_texts_fit(value, min_w, max_w) {
            balanced_watts(min_w, max_w)
        } else {
            Err(PowerError::NeedsFloat(FloatStep::Midpoint))
        }
    } else if k == "default"@ {
        Ok(default_w)
    } else if k == "max"@ || k == "performance"@ {
        Ok(max_w)
    } else if power_texts_fit(value, min_w, max_w) {
        clamped_watts(value, min_w, max_w)
    } else {
        Err(PowerError::NeedsFloat(FloatStep::Clamp))
    }
}

/// The midpoint of the limits, in whole watts (see [`resolve_power`]).
pub open spec fn balanced_watts(min_w: Seq<char>, max_w: Seq<char>) -> Result<Seq<char>, PowerError> {
    match parse_num(min_w) {
        None => Err(PowerError::InvalidLimit),
        Some(lo) => match parse_num(max_w) {
            None => Err(PowerError::InvalidLimit),
            Some(hi) => if exact_integer(lo) && exact_integer(hi) {
                Ok(show(midpoint(lo, hi)))
            } else {
                Err(PowerError::NeedsFloat(FloatStep::Midpoint))
            },
        },
    }
}

/// A number clamped between the limits, in whole watts (see
/// [`resolve_power`]).
pub open spec fn clamped_watts(value: Seq<char>, min_w: Seq<char>, max_w: Seq<char>) -> Result<
    Seq<char>,
    PowerError,
> {
    match parse_num(value) {
        None => Err(PowerError::InvalidValue),
        Some(w) => match parse_num(min_w) {
            None => Err(PowerError::InvalidLimit),
            Some(lo) => match parse_num(max_w) {
                None => Err(PowerError::InvalidLimit),
                Some(hi) => if exact_integer(w) && exact_integer(lo) && exact_integer(hi)
                    && !clamp_refused(lo, hi) {
                    Ok(show(clamp(w, lo, hi)))
                } else {
                    Err(PowerError::NeedsFloat(FloatStep::Clamp))
                },
            },
        },
    }
}

/// Which preset a key names: 1 min/eco, 2 balanced, 3 default,
/// 4 max/performance, 0 none.
pub open spec fn preset_kind(k: Seq<char>) -> u8 {
    if k == "min"@ || k == "eco"@ {
        1
    } else if k == "balanced"@ {
        2
    } else if k == "default"@ {
        3
    } else if k == "max"@ || k == "performance"@ {
        4
    } else {
        0
    }
}

fn power_preset_kind(value: &str) -> (r: u8)
    ensures
        r == preset_kind(power_key(value@)),
{
    let key = lower_ascii(&trim_str(value));
    if chars_eq_str(&key, "min") || chars_eq_str(&key, "eco") {
        1
    } else if chars_eq_str(&key, "balanced") {
        2
    } else if chars_eq_str(&key, "default") {
        3
    } else if chars_eq_str(&key, "max") || chars_eq_str(&key, "performance") {
        4
    } else {
        0
    }
}

fn parse_text(t: &Vec<char>) -> (r: Option<Parsed>)
    requires
        t@.len() < usize::MAX / 64,
    ensures
        match r {
            None => parse_num(t@) is None,
            Some(p) => parse_num(t@) == Some(p.num()) && p.wf() && (p matches Parsed::Finite(f)
                ==> f.digits.len() + f.scale < usize::MAX / 16),
        },
{
    parse_number(t)
}

fn resolve_balanced(lt: &Vec<char>, ht: &Vec<char>) -> (r: Result<String, PowerError>)
    requires
        lt@.len() < usize::MAX / 64,
        ht@.len() < usize::MAX / 64,
    ensures
        match r {
            Ok(w) => balanced_watts(lt@, ht@) == Ok::<Seq<char>, PowerError>(w@),
            Err(e) => balanced_watts(lt@, ht@) == Err::<Seq<char>, PowerError>(e),
        },
{
    let lo = match parse_text(lt) {
        None => {
            return Err(PowerError::InvalidLimit);
        },
        Some(p) => p,
    };
    let hi = match parse_text(ht) {
        None => {
            return Err(PowerError::InvalidLimit);
        },
        Some(p) => p,
    };
    if !(is_exact_integer(&lo) && is_exact_integer(&hi)) {
        return Err(PowerError::NeedsFloat(FloatStep::Midpoint));
    }
    Ok(string_of(&show_midpoint(&lo, &hi)))
}

fn resolve_clamped(vt: &Vec<char>, lt: &Vec<char>, ht: &Vec<char>) -> (r: Result<String, PowerError>)
    requires
        vt@.len() < usize::MAX / 64,
        lt@.len() < usize::MAX / 64,
        ht@.len() < usize::MAX / 64,
    ensures
        match r {
            Ok(w) => clamped_watts(vt@, lt@, ht@) == Ok::<Seq<char>, PowerError>(w@),
            Err(e) => clamped_watts(vt@, lt@, ht@) == Err::<Seq<char>, PowerError>(e),
        },
{
    let w = match parse_text(vt) {
        None => {
            return Err(PowerError::InvalidValue);
        },
        Some(p) => p,
    };
    let lo = match parse_text(lt) {
        None => {
            return Err(PowerError::InvalidLimit);
        },
        Some(p) => p,
    };
    let hi = match parse_text(ht) {
        None => {
            return Err(PowerError::InvalidLimit);
        },
        Some(p) => p,
    };
    if !(is_exact_integer(&w) && is_exact_integer(&lo) && is_exact_integer(&hi)) {
        return Err(PowerError::NeedsFloat(FloatStep::Clamp));
    }
    let lo_nan = match lo {
        Parsed::NaN => true,
        _ => false,
    };
    let hi_nan = match hi {
        Parsed::NaN => true,
        _ => false,
    };
    if lo_nan || hi_nan || less(&hi, &lo) {
        return Err(PowerError::NeedsFloat(FloatStep::Clamp));
    }
    Ok(string_of(&show_clamped(&w, &lo, &hi)))
}

/// The watts to set for a power value on a GPU with the given default,
/// minimum and maximum limits (see [`resolve_power`]).
pub fn resolve_power_value(value: &str, default_w: &str, min_w: &str, max_w: &str) -> (r: Result<
    String,
    PowerError,
>)
    ensures
        match r {
            Ok(w) => resolve_power(value@, default_w@, min_w@, max_w@) == Ok::<
                Seq<char>,
                PowerError,
            >(w@),
            Err(e) => resolve_power(value@, default_w@, min_w@, max_w@) == Err::<
                Seq<char>,
                PowerError,
            >(e),
        },
{
    let kind = power_preset_kind(value);
    if kind == 1 {
        return Ok(string_from(min_w));
    }
    if kind == 3 {
        return Ok(string_from(default_w));
    }
    if kind == 4 {
        return Ok(string_from(max_w));
    }
    let vt = chars_of(value);
    let lt = chars_of(min_w);
    let ht = chars_of(max_w);
    if !(vt.len() < usize::MAX / 64 && lt.len() < usize::MAX / 64 && ht.len() < usize::MAX / 64) {
        if kind == 2 {
            return Err(PowerError::NeedsFloat(FloatStep::Midpoint));
        }
        return Err(PowerError::NeedsFloat(FloatStep::Clamp));
    }
    if kind == 2 {
        resolve_balanced(&lt, &ht)
    } else {
        resolve_clamped(&vt, &lt, &ht)
    }
}

} // verus!
