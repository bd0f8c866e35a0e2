//! Reports on the programs: Prometheus metrics and the status summaries
//! shown by the API.

use vstd::prelude::*;
use vstd::std_specs::iter::IteratorSpec;
use crate::create::{replace, spec_replace};
use crate::lifecycle::{spec_status, spec_status_code};
use crate::model::{clone_opt_string, clone_strings, spec_same_config, ProcessStatus, ProgramConfig, ResourceLimits};
use crate::registry::ProcessRegistry;
use crate::text::{concat2, concat3, digit, fmt_u64, spec_dec, spec_digit, spec_uuid_text, string_of, uuid_text};

verus! {

broadcast use vstd::std_specs::hash::group_hash_axioms;

/// Hundredths as a decimal with two fraction digits (`{:.2}` of `c / 100`).
pub open spec fn spec_centi_text(c: nat) -> Seq<char> {
    spec_dec(c / 100) + seq!['.', spec_digit((c % 100) / 10), spec_digit(c % 10)]
}

/// Text of a CPU percentage kept in hundredths.
pub fn centi_text(c: u32) -> (r: String)
    ensures
        r@ == spec_centi_text(c as nat),
{
    let whole = fmt_u64((c / 100) as u64);
    let f = c % 100;
    let mut tail: Vec<char> = Vec::new();
    tail.push('.');
    tail.push(digit((f / 10) as u64));
    tail.push(digit((c % 10) as u64));
    assert(f % 10 == c % 10);
    let t = string_of(tail.as_slice());
    concat2(whole.as_str(), t.as_str())
}

/// A label value with its double quotes escaped.
pub open spec fn spec_escape_quotes(s: Seq<char>) -> Seq<char> {
    spec_replace(s, seq!['"'], seq!['\\', '"'])
}

/// Labels of a program's metrics.
pub open spec fn spec_metric_labels(id: u128, name: Seq<char>, group: Option<Seq<char>>) -> Seq<char> {
    "id=\""@ + spec_uuid_text(id) + "\",name=\""@ + spec_escape_quotes(name) + "\",group=\""@
        + spec_escape_quotes(
        match group {
            Some(g) => g,
            None => Seq::empty(),
        },
    ) + "\""@
}

/// One metric line.
pub open spec fn spec_metric_line(metric: Seq<char>, labels: Seq<char>, value: Seq<char>) -> Seq<char> {
    metric + "{"@ + labels + "} "@ + value + "\n"@
}

/// `a - b`, or 0 when `b > a`.
pub open spec fn spec_saturating_sub(a: u64, b: u64) -> nat {
    if a >= b {
        (a - b) as nat
    } else {
        0
    }
}

/// The six metric lines of a program at `now` (Unix seconds).
pub open spec fn spec_program_metrics(r: ProcessRegistry, id: u128, now: u64) -> Seq<char> {
    let c = r.programs@[id];
    let labels = spec_metric_labels(
        id,
        c.name@,
        match c.group {
            Some(g) => Some(g@),
            None => None,
        },
    );
    let running = r.instances(id).len() > 0;
    let st = r.instances(id)[0];
    let up: nat = if running { 1 } else { 0 };
    let cpu: nat = if running { st.cpu_usage_centi as nat } else { 0 };
    let mem: nat = if running { st.mem_usage as nat } else { 0 };
    let uptime: nat = if running { spec_saturating_sub(now, st.start_time) } else { 0 };
    let restarts: nat = if running { st.retry_count as nat } else { 0 };
    spec_metric_line("super_process_up"@, labels, spec_dec(up)) + spec_metric_line(
        "super_process_cpu_percent"@,
        labels,
        spec_centi_text(cpu),
    ) + spec_metric_line("super_process_memory_bytes"@, labels, spec_dec(mem)) + spec_metric_line(
        "super_process_uptime_seconds"@,
        labels,
        spec_dec(uptime),
    ) + spec_metric_line("super_process_restart_count"@, labels, spec_dec(restarts))
        + spec_metric_line("super_process_status_code"@, labels, spec_dec(spec_status_code(r, id) as nat))
}

/// Header of the metrics text.
pub open spec fn spec_metrics_header() -> Seq<char> {
    "# HELP super_process_up Process status\n# TYPE super_process_up gauge\n"@
}

/// Metrics of the programs in `order`, one after the other.
pub open spec fn spec_metrics_body(r: ProcessRegistry, order: Seq<u128>, now: u64) -> Seq<char>
    decreases order.len(),
{
    if order.len() == 0 {
        Seq::empty()
    } else {
        spec_metrics_body(r, order.drop_last(), now) + spec_program_metrics(r, order.last(), now)
    }
}

/// `order` lists every program once.
pub open spec fn spec_lists_programs(r: ProcessRegistry, order: Seq<u128>) -> bool {
    &&& forall|a: int, b: int| 0 <= a < b < order.len() ==> order[a] != order[b]
    &&& forall|k: u128| order.contains(k) <==> #[trigger] r.programs@.contains_key(k)
}

fn escape_quotes(s: &str) -> (r: String)
    ensures
        r@ == spec_escape_quotes(s@),
{
    proof {
        reveal_strlit("\"");
        reveal_strlit("\\\"");
    }
    assert("\""@ == seq!['"']);
    assert("\\\""@ == seq!['\\', '"']);
    replace(s, "\"", "\\\"")
}

fn metric_line(metric: &str, labels: &str, value: &str) -> (r: String)
    ensures
        r@ == spec_metric_line(metric@, labels@, value@),
{
    let a = concat3(metric, "{", labels);
    let b = concat3(a.as_str(), "} ", value);
    concat2(b.as_str(), "\n")
}

impl ProcessRegistry {
    /// Every program id, each once (in the map's order).
    pub fn program_ids(&self) -> (r: Vec<u128>)
        ensures
            forall|a: int, b: int| 0 <= a < b < r@.len() ==> r@[a] != r@[b],
            forall|k: u128| r@.contains(k) <==> #[trigger] self.programs@.contains_key(k),
    {
        let ghost m = self.programs@;
        let ghost items = vstd::std_specs::hash::spec_hash_map_iter(&self.programs).remaining();
        proof {
            vstd::std_specs::hash::axiom_spec_hash_map_iter(&self.programs);
        }
        let mut out: Vec<u128> = Vec::new();
        for pair in it: self.programs.iter()
            invariant
                m == self.programs@,
                it.seq() == items,
                it.seq().len() == m.dom().len(),
                forall|i: int|
                    0 <= i < it.seq().len() ==> m.contains_key(*(#[trigger] it.seq()[i]).0) && m[*it.seq()[i].0]
                        == *it.seq()[i].1,
                forall|k: u128| #[trigger] m.contains_key(k) ==> it.seq().contains((&k, &m[k])),
                forall|a: int, b: int| 0 <= a < b < out@.len() ==> out@[a] != out@[b],
                forall|k: u128| #[trigger] out@.contains(k) ==> m.contains_key(k),
                forall|i: int| 0 <= i < it.index() ==> out@.contains(*(#[trigger] it.seq()[i]).0),
        {
            let (k, v) = pair;
            let ghost o0 = out@;
            proof {
                assert(m.contains_key(*k)) by {
                    assert(it.seq()[it.index() as int] == (k, v));
                }
            }
            let mut seen = false;
            let mut j: usize = 0;
            while j < out.len()
                invariant
                    j <= out@.len(),
                    seen == exists|x: int| 0 <= x < j && out@[x] == *k,
                decreases out.len() - j,
            {
                if out[j] == *k {
                    seen = true;
                }
                j = j + 1;
            }
            if !seen {
                out.push(*k);
                proof {
                    assert forall|kk: u128| #[trigger] out@.contains(kk) implies m.contains_key(kk) by {
                        if kk != *k {
                            let x = choose|x: int| 0 <= x < out@.len() && out@[x] == kk;
                            assert(o0[x] == kk);
                            assert(o0.contains(kk));
                        }
                    }
                    assert(out@[out@.len() - 1] == *k);
                }
            } else {
                proof {
                    let x = choose|x: int| 0 <= x < out@.len() && out@[x] == *k;
                    assert(out@.contains(*k));
                }
            }
            proof {
                assert forall|kk: u128| o0.contains(kk) implies out@.contains(kk) by {
                    let x = choose|x: int| 0 <= x < o0.len() && o0[x] == kk;
                    assert(out@[x] == kk);
                }
            }
        }
        proof {
            assert forall|k: u128| #[trigger] m.contains_key(k) implies out@.contains(k) by {
                let i = choose|i: int| 0 <= i < items.len() && items[i] == (&k, &m[k]);
                assert(out@.contains(*items[i].0));
            }
        }
        out
    }

    /// The metric lines of one program at `now` (Unix seconds).
    pub fn program_metrics(&self, id: &u128, now: u64) -> (r: String)
        requires
            self.wf(),
            self.programs@.contains_key(*id),
        ensures
            r@ == spec_program_metrics(*self, *id, now),
    {
        let c = match self.get_config(id) {
            Some(c) => c,
            None => {
                return String::new();
            },
        };
        let u = uuid_text(*id);
        let name = escape_quotes(c.name.as_str());
        let group = match &c.group {
            Some(g) => escape_quotes(g.as_str()),
            None => escape_quotes(""),
        };
        proof {
            reveal_strlit("");
        }
        let a = concat3("id=\"", u.as_str(), "\",name=\"");
        let b = concat3(a.as_str(), name.as_str(), "\",group=\"");
        let labels = concat3(b.as_str(), group.as_str(), "\"");
        let (up, cpu, mem, uptime, restarts): (u64, u32, u64, u64, u64) = match self.get_running(id) {
            Some(st) => (
                1,
                st.cpu_usage_centi,
                st.mem_usage,
                if now >= st.start_time {
                    now - st.start_time
                } else {
                    0
                },
                st.retry_count as u64,
            ),
            None => (0, 0, 0, 0, 0),
        };
        let code = self.status_code(id);
        let l1 = metric_line("super_process_up", labels.as_str(), fmt_u64(up).as_str());
        let l2 = metric_line("super_process_cpu_percent", labels.as_str(), centi_text(cpu).as_str());
        let l3 = metric_line("super_process_memory_bytes", labels.as_str(), fmt_u64(mem).as_str());
        let l4 = metric_line("super_process_uptime_seconds", labels.as_str(), fmt_u64(uptime).as_str());
        let l5 = metric_line("super_process_restart_count", labels.as_str(), fmt_u64(restarts).as_str());
        let l6 = metric_line("super_process_status_code", labels.as_str(), fmt_u64(code as u64).as_str());
        let x = concat3(l1.as_str(), l2.as_str(), l3.as_str());
        let y = concat3(l4.as_str(), l5.as_str(), l6.as_str());
        let r = concat2(x.as_str(), y.as_str());
        assert(r@ =~= spec_program_metrics(*self, *id, now));
        r
    }

    /// The metrics text at `now` (Unix seconds): the header, each program's
    /// lines (in the map's order), then the extension's metrics under their
    /// own heading.
    pub fn generate_metrics(&self, now: u64, extension_metrics: &str) -> (r: String)
        requires
            self.wf(),
        ensures
            exists|order: Seq<u128>|
                spec_lists_programs(*self, order) && r@ == spec_metrics_header() + spec_metrics_body(
                    *self,
                    order,
                    now,
                ) + "\n# --- Extension Metrics ---\n"@ + extension_metrics@,
    {
        let ids = self.program_ids();
        let mut body = String::new();
        let mut i: usize = 0;
        while i < ids.len()
            invariant
                self.wf(),
                i <= ids@.len(),
                forall|k: u128| ids@.contains(k) <==> #[trigger] self.programs@.contains_key(k),
                body@ == spec_metrics_body(*self, ids@.subrange(0, i as int), now),
            decreases ids.len() - i,
        {
            assert(ids@.contains(ids@[i as int]));
            let m = self.program_metrics(&ids[i], now);
            body = concat2(body.as_str(), m.as_str());
            assert(ids@.subrange(0, i + 1).drop_last() =~= ids@.subrange(0, i as int));
            i = i + 1;
        }
        assert(ids@.subrange(0, ids@.len() as int) =~= ids@);
        let h = "# HELP super_process_up Process status\n# TYPE super_process_up gauge\n";
        let a = concat3(h, body.as_str(), "\n# --- Extension Metrics ---\n");
        let r = concat2(a.as_str(), extension_metrics);
        assert(spec_lists_programs(*self, ids@));
        assert(r@ == spec_metrics_header() + spec_metrics_body(*self, ids@, now)
            + "\n# --- Extension Metrics ---\n"@ + extension_metrics@);
        r
    }
}

/// Status summary of one program, as listed by the API.
#[derive(Debug)]
pub struct ProgramSummary {
    pub id: u128,
    pub name: String,
    pub group: Option<String>,
    pub status: ProcessStatus,
    pub pid: Option<u32>,
    pub uptime_sec: Option<u64>,
    pub created_at: u64,
    pub updated_at: u64,
    pub last_error: Option<String>,
    pub health_error: Option<String>,
    /// CPU usage in hundredths of a percent.
    pub cpu_usage_centi: Option<u32>,
    pub mem_usage: Option<u64>,
    pub depends_on: Vec<String>,
    pub resource_limits: Option<ResourceLimits>,
}

/// Detail of one program, as returned by the API.
#[derive(Debug)]
pub struct ProgramInfo {
    pub id: u128,
    pub state: ProcessStatus,
    pub pid: Option<u32>,
    pub config: ProgramConfig,
    pub last_error: Option<String>,
    pub health_error: Option<String>,
}

/// Startup error recorded for a program.
pub open spec fn spec_last_error(r: ProcessRegistry, id: u128) -> Option<String> {
    if r.startup_errors@.contains_key(id) {
        Some(r.startup_errors@[id])
    } else {
        None
    }
}

/// Health failure of a program's primary instance.
pub open spec fn spec_health_error(r: ProcessRegistry, id: u128) -> Option<String> {
    if r.instances(id).len() > 0 {
        r.instances(id)[0].health_error
    } else {
        None
    }
}

/// `s` summarises program `id` of `r` at `now` (Unix seconds).
pub open spec fn spec_summary(s: ProgramSummary, r: ProcessRegistry, id: u128, now: u64) -> bool {
    let c = r.programs@[id];
    let running = r.instances(id).len() > 0;
    let st = r.instances(id)[0];
    &&& s.id == id
    &&& s.name == c.name
    &&& s.group == c.group
    &&& s.status == spec_status(r, id)
    &&& s.pid == (if running { Some(st.pid) } else { None })
    &&& s.uptime_sec == (if running { Some(spec_saturating_sub(now, st.start_time) as u64) } else { None })
    &&& s.created_at == c.created_at
    &&& s.updated_at == c.updated_at
    &&& s.last_error == spec_last_error(r, id)
    &&& s.health_error == spec_health_error(r, id)
    &&& s.cpu_usage_centi == (if running { Some(st.cpu_usage_centi) } else { None })
    &&& s.mem_usage == (if running { Some(st.mem_usage) } else { None })
    &&& s.depends_on@ == c.depends_on@
    &&& s.resource_limits == c.resource_limits
}

/// Each summary describes its program at `now`.
pub open spec fn spec_summaries(v: Seq<ProgramSummary>, r: ProcessRegistry, now: u64) -> bool {
    forall|a: int| 0 <= a < v.len() ==> spec_summary(#[trigger] v[a], r, v[a].id, now)
}

/// Current time from `chrono::Utc::now`, in Unix seconds (`timestamp()`
/// as `u64`). Nothing is claimed of the value.
#[verifier::external_body]
fn now_secs() -> (r: u64) {
    chrono::Utc::now().timestamp() as u64
}

impl ProcessRegistry {
    fn startup_error(&self, id: &u128) -> (r: Option<String>)
        ensures
            r == spec_last_error(*self, *id),
    {
        match self.startup_errors.get(id) {
            Some(e) => Some(e.clone()),
            None => None,
        }
    }

    fn health_error_of(&self, id: &u128) -> (r: Option<String>)
        requires
            self.wf(),
        ensures
            r == spec_health_error(*self, *id),
    {
        match self.get_running(id) {
            Some(st) => clone_opt_string(&st.health_error),
            None => None,
        }
    }

    /// Summary of program `id` at `now` (Unix seconds).
    pub fn build_summary(&self, id: &u128, now: u64) -> (r: ProgramSummary)
        requires
            self.wf(),
            self.programs@.contains_key(*id),
        ensures
            spec_summary(r, *self, *id, now),
    {
        let c = match self.get_config(id) {
            Some(c) => c,
            None => {
                return ProgramSummary {
                    id: *id,
                    name: String::new(),
                    group: None,
                    status: ProcessStatus::Stopped,
                    pid: None,
                    uptime_sec: None,
                    created_at: 0,
                    updated_at: 0,
                    last_error: None,
                    health_error: None,
                    cpu_usage_centi: None,
                    mem_usage: None,
                    depends_on: Vec::new(),
                    resource_limits: None,
                };
            },
        };
        let (pid, uptime, cpu, mem) = match self.get_running(id) {
            Some(st) => (
                Some(st.pid),
                Some(
                    if now >= st.start_time {
                        now - st.start_time
                    } else {
                        0
                    },
                ),
                Some(st.cpu_usage_centi),
                Some(st.mem_usage),
            ),
            None => (None, None, None, None),
        };
        ProgramSummary {
            id: *id,
            name: c.name.clone(),
            group: clone_opt_string(&c.group),
            status: self.status_of(id),
            pid,
            uptime_sec: uptime,
            created_at: c.created_at,
            updated_at: c.updated_at,
            last_error: self.startup_error(id),
            health_error: self.health_error_of(id),
            cpu_usage_centi: cpu,
            mem_usage: mem,
            depends_on: clone_strings(&c.depends_on),
            resource_limits: c.resource_limits,
        }
    }

    /// Summaries of all programs at `now` (in the map's order).
    pub fn list_at(&self, now: u64) -> (r: Vec<ProgramSummary>)
        requires
            self.wf(),
        ensures
            forall|a: int, b: int| 0 <= a < b < r@.len() ==> r@[a].id != r@[b].id,
            forall|k: u128|
                #[trigger] self.programs@.contains_key(k) <==> exists|a: int| 0 <= a < r@.len() && r@[a].id == k,
            forall|a: int| 0 <= a < r@.len() ==> spec_summary(#[trigger] r@[a], *self, r@[a].id, now),
    {
        let ids = self.program_ids();
        let mut out: Vec<ProgramSummary> = Vec::new();
        let mut i: usize = 0;
        while i < ids.len()
            invariant
                self.wf(),
                i <= ids@.len(),
                out@.len() == i,
                forall|k: u128| ids@.contains(k) <==> #[trigger] self.programs@.contains_key(k),
                forall|a: int| 0 <= a < i ==> (#[trigger] out@[a]).id == ids@[a],
                forall|a: int| 0 <= a < i ==> spec_summary(#[trigger] out@[a], *self, ids@[a], now),
            decreases ids.len() - i,
        {
            assert(ids@.contains(ids@[i as int]));
            out.push(self.build_summary(&ids[i], now));
            i = i + 1;
        }
        proof {
            assert forall|k: u128| #[trigger] self.programs@.contains_key(k) <==> exists|a: int|
                0 <= a < out@.len() && out@[a].id == k by {
                if self.programs@.contains_key(k) {
                    let a = choose|a: int| 0 <= a < ids@.len() && ids@[a] == k;
                    assert(out@[a].id == k);
                }
                if exists|a: int| 0 <= a < out@.len() && out@[a].id == k {
                    let a = choose|a: int| 0 <= a < out@.len() && out@[a].id == k;
                    assert(ids@.contains(ids@[a]));
                }
            }
            assert forall|a: int, b: int| 0 <= a < b < out@.len() implies out@[a].id != out@[b].id by {
                assert(ids@[a] != ids@[b]);
            }
        }
        out
    }

    /// Summaries of all programs at the current time.
    pub fn handle_list(&self) -> (r: Vec<ProgramSummary>)
        requires
            self.wf(),
        ensures
            forall|a: int, b: int| 0 <= a < b < r@.len() ==> r@[a].id != r@[b].id,
            forall|k: u128|
                #[trigger] self.programs@.contains_key(k) <==> exists|a: int| 0 <= a < r@.len() && r@[a].id == k,
            exists|now: u64| #[trigger] spec_summaries(r@, *self, now),
    {
        let now = now_secs();
        let r = self.list_at(now);
        assert(spec_summaries(r@, *self, now));
        r
    }

    /// Detail of program `id`; `None` when there is no such program.
    pub fn handle_get(&self, id: &u128) -> (r: Option<ProgramInfo>)
        requires
            self.wf(),
        ensures
            r is None <==> !self.programs@.contains_key(*id),
            r matches Some(info) ==> {
                let running = self.instances(*id).len() > 0;
                &&& info.id == *id
                &&& info.state == spec_status(*self, *id)
                &&& info.pid == (if running { Some(self.instances(*id)[0].pid) } else { None })
                &&& spec_same_config(info.config, self.programs@[*id])
                &&& info.last_error == spec_last_error(*self, *id)
                &&& info.health_error == spec_health_error(*self, *id)
            },
    {
        let c = match self.get_config(id) {
            Some(c) => c,
            None => {
                return None;
            },
        };
        let pid = match self.get_running(id) {
            Some(st) => Some(st.pid),
            None => None,
        };
        Some(
            ProgramInfo {
                id: *id,
                state: self.status_of(id),
                pid,
                config: c.clone(),
                last_error: self.startup_error(id),
                health_error: self.health_error_of(id),
            },
        )
    }
}

} // verus!
