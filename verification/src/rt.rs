//! What the daemon asks of the kernel, and how it reports what it got.

use crate::text::{
    after, before, chars_of, contains, decimal, decimal_of, find_char, has_text, index_of,
    put, put_number, same_text, string_of, trim, trimmed,
};
use vstd::prelude::*;

verus! {

/// Which tunings are asked for.
#[derive(Clone, Copy, Debug, PartialEq, Eq, Structural)]
pub struct TuningRequest {
    pub timer_slack: bool,
    pub cpu_dma_latency: bool,
    pub sched_fifo: Option<i32>,
    pub mlock: bool,
    pub cpu_affinity: Option<usize>,
}

/// The tunings that are asked for unless said otherwise.
pub open spec fn default_tuning() -> TuningRequest {
    TuningRequest {
        timer_slack: true,
        cpu_dma_latency: true,
        sched_fifo: Some(20),
        mlock: true,
        cpu_affinity: None,
    }
}

impl Default for TuningRequest {
    fn default() -> (r: Self)
        ensures
            r == default_tuning(),
    {
        TuningRequest {
            timer_slack: true,
            cpu_dma_latency: true,
            sched_fifo: Some(20),
            mlock: true,
            cpu_affinity: None,
        }
    }
}

/// A priority within its bounds.
pub open spec fn within(prio: i32, lo: i32, hi: i32) -> i32 {
    if prio < lo {
        lo
    } else if prio > hi {
        hi
    } else {
        prio
    }
}

/// A priority within what the kernel offers.
pub fn clamp_priority(prio: i32, lo: i32, hi: i32) -> (r: i32)
    requires
        lo <= hi,
    ensures
        r == within(prio, lo, hi),
{
    if prio < lo {
        lo
    } else if prio > hi {
        hi
    } else {
        prio
    }
}

/// `s` filled up with spaces to 22 characters.
pub open spec fn padded(s: Seq<char>) -> Seq<char> {
    if s.len() >= 22 {
        s
    } else {
        s + Seq::new((22 - s.len()) as nat, |i: int| ' ')
    }
}

fn padded_of(s: &str) -> (r: Vec<char>)
    ensures
        r@ == padded(s@),
{
    let mut r: Vec<char> = chars_of(s);
    while r.len() < 22
        invariant
            r@.len() >= s@.len(),
            r@.len() > s@.len() ==> r@.len() <= 22,
            r@ == s@ + Seq::new((r@.len() - s@.len()) as nat, |i: int| ' '),
        decreases 22 - r@.len(),
    {
        r.push(' ');
        assert(r@ =~= s@ + Seq::new((r@.len() - s@.len()) as nat, |i: int| ' '));
    }
    assert(r@ =~= padded(s@));
    r
}

/// A report line: a mark, what it is about, and the detail.
pub open spec fn report_line(mark: Seq<char>, what: Seq<char>, detail: Seq<char>) -> Seq<char> {
    mark + padded(what) + " "@ + detail
}

fn line_of(mark: &str, what: &str, detail: &str) -> (r: String)
    ensures
        r@ == report_line(mark@, what@, detail@),
{
    let mut s: String = String::new();
    s.append(mark);
    let p: String = string_of(&padded_of(what));
    s.append(p.as_str());
    s.append(" ");
    s.append(detail);
    assert(s@ =~= report_line(mark@, what@, detail@));
    s
}

/// Report a tuning that took.
pub fn ok(lines: &mut Vec<String>, what: &str, detail: &str)
    ensures
        final(lines)@.len() == old(lines)@.len() + 1,
        final(lines)@.drop_last() == old(lines)@,
        final(lines)@.last()@ == report_line("  ✓ "@, what@, detail@),
{
    let ghost l0 = lines@;
    lines.push(line_of("  ✓ ", what, detail));
    assert(lines@.drop_last() =~= l0);
}

/// Report a tuning that did not.
pub fn skip(lines: &mut Vec<String>, what: &str, why: &str)
    ensures
        final(lines)@.len() == old(lines)@.len() + 1,
        final(lines)@.drop_last() == old(lines)@,
        final(lines)@.last()@ == report_line("  · "@, what@, why@),
{
    let ghost l0 = lines@;
    lines.push(line_of("  · ", what, why));
    assert(lines@.drop_last() =~= l0);
}

/// A tuning to try.
#[derive(Clone, Copy, Debug, PartialEq, Eq, Structural)]
pub enum TuneStep {
    /// Let timers fire on time.
    TimerSlack,
    /// Keep the processors out of deep sleep.
    CpuLatency,
    /// Run ahead of others, with this priority.
    Scheduler(i32),
    /// Keep all memory resident.
    Memory,
    /// Stay on this processor.
    Affinity(usize),
}

/// A list of one step, or of none.
pub open spec fn step_if(asked: bool, step: TuneStep) -> Seq<TuneStep> {
    if asked {
        seq![step]
    } else {
        Seq::empty()
    }
}

/// The tunings that a request asks for, in the order in which they are tried.
pub open spec fn steps_of(req: TuningRequest) -> Seq<TuneStep> {
    step_if(req.timer_slack, TuneStep::TimerSlack) + step_if(
        req.cpu_dma_latency,
        TuneStep::CpuLatency,
    ) + step_if(req.sched_fifo is Some, TuneStep::Scheduler(req.sched_fifo->0)) + step_if(
        req.mlock,
        TuneStep::Memory,
    ) + step_if(req.cpu_affinity is Some, TuneStep::Affinity(req.cpu_affinity->0))
}

/// The tunings that a request asks for, in the order in which they are tried.
pub fn tuning_steps(req: &TuningRequest) -> (r: Vec<TuneStep>)
    ensures
        r@ == steps_of(*req),
{
    let mut r: Vec<TuneStep> = Vec::new();
    if req.timer_slack {
        r.push(TuneStep::TimerSlack);
    }
    if req.cpu_dma_latency {
        r.push(TuneStep::CpuLatency);
    }
    if let Some(prio) = req.sched_fifo {
        r.push(TuneStep::Scheduler(prio));
    }
    if req.mlock {
        r.push(TuneStep::Memory);
    }
    if let Some(cpu) = req.cpu_affinity {
        r.push(TuneStep::Affinity(cpu));
    }
    assert(r@ =~= steps_of(*req));
    r
}

/// A whole number in decimal, with a minus sign where it is below zero.
pub open spec fn signed_decimal(n: int) -> Seq<char> {
    if n < 0 {
        "-"@ + decimal((-n) as nat)
    } else {
        decimal(n as nat)
    }
}

fn put_signed(out: &mut Vec<char>, n: i32)
    ensures
        final(out)@ == old(out)@ + signed_decimal(n as int),
{
    if n < 0 {
        put(out, "-");
        put_number(out, (-(n as i64)) as u64);
    } else {
        put_number(out, n as u64);
    }
    assert(out@ =~= old(out)@ + signed_decimal(n as int));
}

/// What a tuning is called.
pub open spec fn step_name(step: TuneStep) -> Seq<char> {
    match step {
        TuneStep::TimerSlack => "timer slack"@,
        TuneStep::CpuLatency => "cpu latency QoS"@,
        TuneStep::Scheduler(_) => "scheduler"@,
        TuneStep::Memory => "memory"@,
        TuneStep::Affinity(_) => "affinity"@,
    }
}

fn name_of(step: TuneStep) -> (r: &'static str)
    ensures
        r@ == step_name(step),
{
    match step {
        TuneStep::TimerSlack => "timer slack",
        TuneStep::CpuLatency => "cpu latency QoS",
        TuneStep::Scheduler(_) => "scheduler",
        TuneStep::Memory => "memory",
        TuneStep::Affinity(_) => "affinity",
    }
}

/// What a tuning that took has brought. `max` is the highest priority that there is.
pub open spec fn step_detail(step: TuneStep, max: i32) -> Seq<char> {
    match step {
        TuneStep::TimerSlack => "1 ns (default is 50 µs)"@,
        TuneStep::CpuLatency => "0 µs — deep C-states disabled"@,
        TuneStep::Scheduler(prio) => "SCHED_FIFO prio "@ + signed_decimal(prio as int) + " (max "@
            + signed_decimal(max as int) + ")"@,
        TuneStep::Memory => "mlockall — no major faults in the loop"@,
        TuneStep::Affinity(cpu) => "pinned to CPU "@ + decimal(cpu as nat),
    }
}

fn detail_of(step: TuneStep, max: i32) -> (r: String)
    ensures
        r@ == step_detail(step, max),
{
    let mut out: Vec<char> = Vec::new();
    match step {
        TuneStep::TimerSlack => {
            put(&mut out, "1 ns (default is 50 µs)");
        },
        TuneStep::CpuLatency => {
            put(&mut out, "0 µs — deep C-states disabled");
        },
        TuneStep::Scheduler(prio) => {
            put(&mut out, "SCHED_FIFO prio ");
            put_signed(&mut out, prio);
            put(&mut out, " (max ");
            put_signed(&mut out, max);
            put(&mut out, ")");
        },
        TuneStep::Memory => {
            put(&mut out, "mlockall — no major faults in the loop");
        },
        TuneStep::Affinity(cpu) => {
            put(&mut out, "pinned to CPU ");
            put_number(&mut out, cpu as u64);
        },
    }
    assert(out@ =~= step_detail(step, max));
    string_of(&out)
}

/// What to do about a tuning that was refused, behind the reason.
pub open spec fn step_hint(step: TuneStep) -> Seq<char> {
    match step {
        TuneStep::Scheduler(_) => " — grant CAP_SYS_NICE or raise RLIMIT_RTPRIO"@,
        TuneStep::Memory => " — grant CAP_IPC_LOCK"@,
        _ => ""@,
    }
}

fn hint_of(step: TuneStep) -> (r: &'static str)
    ensures
        r@ == step_hint(step),
{
    match step {
        TuneStep::Scheduler(_) => " — grant CAP_SYS_NICE or raise RLIMIT_RTPRIO",
        TuneStep::Memory => " — grant CAP_IPC_LOCK",
        _ => "",
    }
}

/// The line that a tuning leaves in the report: `error` is what the kernel said against
/// it, if anything.
pub open spec fn step_line(step: TuneStep, max: i32, error: Option<Seq<char>>) -> Seq<char> {
    match error {
        None => report_line("  ✓ "@, step_name(step), step_detail(step, max)),
        Some(e) => report_line("  · "@, step_name(step), e + step_hint(step)),
    }
}

/// Report what came of a tuning.
pub fn tell_step(lines: &mut Vec<String>, step: TuneStep, max: i32, error: Option<&str>)
    ensures
        final(lines)@.len() == old(lines)@.len() + 1,
        final(lines)@.drop_last() == old(lines)@,
        final(lines)@.last()@ == step_line(step, max, text_of(error)),
{
    match error {
        None => {
            ok(lines, name_of(step), detail_of(step, max).as_str());
        },
        Some(e) => {
            let mut why: Vec<char> = chars_of(e);
            put(&mut why, hint_of(step));
            skip(lines, name_of(step), string_of(&why).as_str());
        },
    }
}

/// The first `n` lines, one under the other.
pub open spec fn joined_lines(lines: Seq<String>, n: int) -> Seq<char>
    decreases n,
{
    if n <= 0 {
        Seq::empty()
    } else if n == 1 {
        lines[0]@
    } else {
        joined_lines(lines, n - 1) + "\n"@ + lines[n - 1]@
    }
}

/// The report of a tuning.
pub fn report(lines: &Vec<String>) -> (r: String)
    ensures
        lines@.len() == 0 ==> r@ == "  (no tuning requested)"@,
        lines@.len() > 0 ==> r@ == joined_lines(lines@, lines@.len() as int),
{
    if lines.len() == 0 {
        let mut s: String = String::new();
        s.append("  (no tuning requested)");
        assert(s@ =~= "  (no tuning requested)"@);
        return s;
    }
    let mut s: String = String::new();
    s.append(lines[0].as_str());
    assert(s@ =~= lines@[0]@);
    let mut i: usize = 1;
    while i < lines.len()
        invariant
            1 <= i <= lines@.len(),
            s@ == joined_lines(lines@, i as int),
        decreases lines@.len() - i,
    {
        s.append("\n");
        s.append(lines[i].as_str());
        i = i + 1;
    }
    s
}

/// What to do about the joystick poll interval: `cur` is what the kernel says it
/// is. `None` where it is already `ms`; else the text to write.
pub fn jspoll_write(cur: &str, ms: u32) -> (r: Option<String>)
    ensures
        r is None <==> trim(cur@) == decimal(ms as nat),
        r matches Some(s) ==> s@ == decimal(ms as nat),
{
    let now: Vec<char> = trimmed(&chars_of(cur));
    let want: Vec<char> = decimal_of(ms as u64);
    if same_text(&now, &want) {
        None
    } else {
        Some(string_of(&want))
    }
}

/// What came of the wish for a joystick poll interval.
#[derive(Debug, PartialEq, Eq)]
pub enum Jspoll {
    /// The kernel does not say what it is.
    Unavailable(String),
    /// It is so already.
    Already,
    /// It was this.
    Changed(String),
    /// The kernel does not let it be changed.
    Refused(String),
}

/// The line that the wish for an interval leaves in the report.
pub open spec fn jspoll_line(ms: u32, outcome: Jspoll) -> Seq<char> {
    match outcome {
        Jspoll::Unavailable(e) => "  · usbhid jspoll        unavailable ("@ + e@ + ")"@,
        Jspoll::Already => "  ✓ usbhid jspoll        already "@ + decimal(ms as nat) + " ms"@,
        Jspoll::Changed(cur) => "  ✓ usbhid jspoll        "@ + trim(cur@) + " → "@ + decimal(
            ms as nat,
        ) + " ms (applies to devices bound from now)"@,
        Jspoll::Refused(e) => "  · usbhid jspoll        "@ + e@ + " (need root)"@,
    }
}

/// The line that the wish for an interval leaves in the report.
pub fn jspoll_text(ms: u32, outcome: &Jspoll) -> (r: String)
    ensures
        r@ == jspoll_line(ms, *outcome),
{
    let mut out: Vec<char> = Vec::new();
    match outcome {
        Jspoll::Unavailable(e) => {
            put(&mut out, "  · usbhid jspoll        unavailable (");
            put(&mut out, e.as_str());
            put(&mut out, ")");
        },
        Jspoll::Already => {
            put(&mut out, "  ✓ usbhid jspoll        already ");
            put_number(&mut out, ms as u64);
            put(&mut out, " ms");
        },
        Jspoll::Changed(cur) => {
            put(&mut out, "  ✓ usbhid jspoll        ");
            put(&mut out, string_of(&trimmed(&chars_of(cur.as_str()))).as_str());
            put(&mut out, " → ");
            put_number(&mut out, ms as u64);
            put(&mut out, " ms (applies to devices bound from now)");
        },
        Jspoll::Refused(e) => {
            put(&mut out, "  · usbhid jspoll        ");
            put(&mut out, e.as_str());
            put(&mut out, " (need root)");
        },
    }
    assert(out@ =~= jspoll_line(ms, *outcome));
    string_of(&out)
}

/// The model in round brackets in the scheduler's list, if there is one.
pub open spec fn bracketed(s: Seq<char>) -> Option<Seq<char>> {
    if index_of(s, '(') < s.len() && index_of(after(s, '('), ')') < after(s, '(').len() {
        Some(before(after(s, '('), ')'))
    } else {
        None
    }
}

/// The model that the kernel's version text names.
pub open spec fn version_model(v: Seq<char>) -> Seq<char> {
    if contains(v, "PREEMPT_RT"@) {
        "rt"@
    } else if contains(v, "PREEMPT_DYNAMIC"@) {
        "dynamic"@
    } else if contains(v, "PREEMPT"@) {
        "preempt"@
    } else {
        "unknown"@
    }
}

/// The kernel's preemption model, from the scheduler's list and the version text
/// as far as they can be read.
pub open spec fn model_of(sched: Option<Seq<char>>, version: Option<Seq<char>>) -> Seq<char> {
    match sched {
        Some(s) if bracketed(s) is Some => bracketed(s)->0,
        _ => match version {
            Some(v) => version_model(v),
            None => "unknown"@,
        },
    }
}

/// The text of an optional string.
pub open spec fn text_of(s: Option<&str>) -> Option<Seq<char>> {
    match s {
        Some(t) => Some(t@),
        None => None,
    }
}

/// The kernel's preemption model.
pub fn preempt_model(sched: Option<&str>, version: Option<&str>) -> (r: String)
    ensures
        r@ == model_of(text_of(sched), text_of(version)),
{
    if let Some(s) = sched {
        let v: Vec<char> = chars_of(s);
        let i: usize = find_char(&v, '(', 0);
        assert(v@.subrange(0, v@.len() as int) =~= v@);
        if i < v.len() {
            let j: usize = find_char(&v, ')', i + 1);
            assert(v@.subrange(i + 1, v@.len() as int) =~= after(v@, '('));
            if j < v.len() {
                let m: Vec<char> = crate::text::cut(&v, i + 1, j);
                assert(m@ =~= before(after(v@, '('), ')'));
                return string_of(&m);
            }
        }
    }
    let mut r: String = String::new();
    match version {
        Some(t) => {
            let v: Vec<char> = chars_of(t);
            if has_text(&v, &chars_of("PREEMPT_RT")) {
                r.append("rt");
                assert(r@ =~= "rt"@);
            } else if has_text(&v, &chars_of("PREEMPT_DYNAMIC")) {
                r.append("dynamic");
                assert(r@ =~= "dynamic"@);
            } else if has_text(&v, &chars_of("PREEMPT")) {
                r.append("preempt");
                assert(r@ =~= "preempt"@);
            } else {
                r.append("unknown");
                assert(r@ =~= "unknown"@);
            }
        },
        None => {
            r.append("unknown");
            assert(r@ =~= "unknown"@);
        },
    }
    r
}

/// A priority is taken as it is within its bounds, and as the nearer bound outside of them.
pub proof fn law_priorities_stay_in_bounds(prio: i32, lo: i32, hi: i32)
    requires
        lo <= hi,
    ensures
        lo <= within(prio, lo, hi) <= hi,
        lo <= prio <= hi ==> within(prio, lo, hi) == prio,
        prio <= lo ==> within(prio, lo, hi) == lo,
        prio >= hi ==> within(prio, lo, hi) == hi,
{
}

/// Exactly what is asked for is tried, each once, and the memory before the processor.
pub proof fn law_what_is_asked_for_is_tried(req: TuningRequest, step: TuneStep)
    ensures
        steps_of(req).contains(step) <==> (match step {
            TuneStep::TimerSlack => req.timer_slack,
            TuneStep::CpuLatency => req.cpu_dma_latency,
            TuneStep::Scheduler(p) => req.sched_fifo == Some(p),
            TuneStep::Memory => req.mlock,
            TuneStep::Affinity(c) => req.cpu_affinity == Some(c),
        }),
        steps_of(req).no_duplicates(),
{
    let s1 = step_if(req.timer_slack, TuneStep::TimerSlack);
    let s2 = step_if(req.cpu_dma_latency, TuneStep::CpuLatency);
    let s3 = step_if(req.sched_fifo is Some, TuneStep::Scheduler(req.sched_fifo->0));
    let s4 = step_if(req.mlock, TuneStep::Memory);
    let s5 = step_if(req.cpu_affinity is Some, TuneStep::Affinity(req.cpu_affinity->0));
    let r = steps_of(req);
    let (n1, n2, n3, n4) = (
        s1.len() as int,
        (s1 + s2).len() as int,
        (s1 + s2 + s3).len() as int,
        (s1 + s2 + s3 + s4).len() as int,
    );
    if req.timer_slack {
        assert(r[0] == TuneStep::TimerSlack);
    }
    if req.cpu_dma_latency {
        assert(r[n1] == TuneStep::CpuLatency);
    }
    if req.sched_fifo is Some {
        assert(r[n2] == TuneStep::Scheduler(req.sched_fifo->0));
    }
    if req.mlock {
        assert(r[n3] == TuneStep::Memory);
    }
    if req.cpu_affinity is Some {
        assert(r[n4] == TuneStep::Affinity(req.cpu_affinity->0));
    }
}

/// A whole number reads back as it is written, with its sign.
pub proof fn law_whole_numbers_read_back(n: i32)
    ensures
        crate::text::parse_signed(signed_decimal(n as int)) == Some(n as int),
{
    reveal_strlit("-");
    assert("-"@ =~= seq!['-']);
    if n < 0 {
        crate::text::law_signed_numbers_read_back((-n) as nat);
    } else {
        crate::text::law_signed_numbers_read_back(n as nat);
    }
}

/// A column is at least 22 wide, begins with its text, and is filled up with blanks.
pub proof fn law_columns_are_filled_up(s: Seq<char>, i: int)
    ensures
        padded(s).len() >= 22,
        padded(s).len() >= s.len(),
        s.len() <= 22 ==> padded(s).len() == 22,
        0 <= i < s.len() ==> padded(s)[i] == s[i],
        s.len() <= i < padded(s).len() ==> padded(s)[i] == ' ',
{
}

/// The model between the brackets is found, whatever stands around them; without brackets the
/// version text tells it, and the stricter model is named where it names several.
pub proof fn law_the_model_is_between_the_brackets(
    head: Seq<char>,
    model: Seq<char>,
    tail: Seq<char>,
    version: Option<Seq<char>>,
)
    requires
        !head.contains('('),
        !model.contains(')'),
    ensures
        model_of(Some(head + seq!['('] + (model + seq![')'] + tail)), version) == model,
        model_of(None, None) == "unknown"@,
        model_of(None, version) == model_of(Some(Seq::empty()), version),
        version matches Some(v) ==> (contains(v, "PREEMPT_RT"@) ==> model_of(None, version) == "rt"@),
        version matches Some(v) ==> (!contains(v, "PREEMPT_RT"@) && contains(v, "PREEMPT_DYNAMIC"@)
            ==> model_of(None, version) == "dynamic"@),
{
    crate::text::lemma_key_and_value(head, model + seq![')'] + tail, '(');
    crate::text::lemma_key_and_value(model, tail, ')');
}

} // verus!
