//! Background jobs: their ids, their bounded output, and how they end.
use vstd::prelude::*;
use crate::text::{hex_chars, hex_text, zero_pad_chars, zero_padded, string_of, append_chars, digit_char};
use crate::service::texts;

verus! {

/// Most output lines a job keeps; older lines are dropped first.
pub const MAX_JOB_OUTPUT_LINES: usize = 10000;

#[verifier::external_type_specification]
#[verifier::external_body]
pub struct ExSystemTime(std::time::SystemTime);

/// Reads the system clock (`SystemTime::now`). Nothing is stated of the
/// value: it is the time.
#[verifier::external_body]
fn system_now() -> std::time::SystemTime {
    std::time::SystemTime::now()
}

/// The time elapsed from the Unix epoch to `t`
/// (`SystemTime::duration_since(UNIX_EPOCH)`), `None` when `t` is earlier.
/// Nothing is stated of the value: it depends on the clock reading.
#[verifier::external_body]
fn since_epoch(t: &std::time::SystemTime) -> Option<std::time::Duration> {
    t.duration_since(std::time::UNIX_EPOCH).ok()
}

/// The whole milliseconds of a duration (`Duration::as_millis`). Nothing is
/// stated of the value: a duration here only ever holds a clock reading.
#[verifier::external_body]
fn duration_millis(d: &std::time::Duration) -> u128 {
    d.as_millis()
}

/// A clock reading in milliseconds, cut to its low 64 bits as `as u64` does.
pub fn millis_from_clock(ms: u128) -> (r: u64)
    ensures
        r == ms as u64,
{
    #[verifier::truncate]
    (ms as u64)
}

/// The milliseconds a clock reading gives: the milliseconds since the Unix
/// epoch cut to 64 bits, or 0 when the clock read earlier than the epoch
/// (`None`).
pub fn millis_since_epoch(ms: Option<u128>) -> (r: u64)
    ensures
        r == match ms {
            Some(m) => m as u64,
            None => 0u64,
        },
{
    match ms {
        Some(m) => millis_from_clock(m),
        None => 0,
    }
}

/// The current time in milliseconds since the Unix epoch, cut to 64 bits;
/// 0 when the clock reads earlier than the epoch.
pub fn now_millis() -> u64 {
    let reading = match since_epoch(&system_now()) {
        Some(d) => Some(duration_millis(&d)),
        None => None,
    };
    millis_since_epoch(reading)
}

/// A job id: the time as at least 13 hexadecimal digits, then the low 12
/// bits of the counter as 3 hexadecimal digits.
pub open spec fn job_id_text(millis: u64, counter: u64) -> Seq<char> {
    zero_padded(hex_text(millis as nat), 13) + zero_padded(hex_text((counter % 4096) as nat), 3)
}

/// The job id for a time and a counter value, as `{:013x}{:03x}` writes it.
pub fn format_job_id(millis: u64, counter: u64) -> (r: String)
    ensures
        r@ == job_id_text(millis, counter),
{
    let low = counter & 0xfff;
    assert(counter & 0xfff == counter % 4096) by (bit_vector);
    let mut a = zero_pad_chars(&hex_chars(millis), 13);
    let b = zero_pad_chars(&hex_chars(low), 3);
    append_chars(&mut a, &b);
    string_of(a.as_slice())
}

/// A fresh job id from the current time and the caller's counter value,
/// which the caller advances on every call.
pub fn gen_job_id(counter: u64) -> (r: String)
    ensures
        exists|millis: u64| r@ == job_id_text(millis, counter),
{
    let millis = now_millis();
    format_job_id(millis, counter)
}

/// A background command run for a service.
pub struct Job {
    pub id: String,
    pub service_id: String,
    pub cmd: String,
    /// `running`, `done` or `failed`.
    pub state: String,
    /// The most recent output lines, at most [`MAX_JOB_OUTPUT_LINES`].
    pub output: Vec<String>,
    pub exit_code: Option<i32>,
    /// Milliseconds since the Unix epoch.
    pub started_at: u64,
    pub finished_at: Option<u64>,
}

impl Job {
    /// The job keeps no more lines than the limit.
    pub open spec fn well_formed(&self) -> bool {
        self.output@.len() <= MAX_JOB_OUTPUT_LINES
    }
}

/// A job that has just started: running, no output, no exit code.
pub fn new_job(id: String, service_id: String, cmd: String, started_at: u64) -> (r: Job)
    ensures
        r.id@ == id@,
        r.service_id@ == service_id@,
        r.cmd@ == cmd@,
        r.state@ == "running"@,
        r.output@.len() == 0,
        r.exit_code is None,
        r.started_at == started_at,
        r.finished_at is None,
        r.well_formed(),
{
    Job {
        id,
        service_id,
        cmd,
        state: "running".to_string(),
        output: Vec::new(),
        exit_code: None,
        started_at,
        finished_at: None,
    }
}

/// `lines` with `line` added, then the oldest line dropped when that makes
/// more than `limit`.
pub open spec fn capped_push(lines: Seq<Seq<char>>, line: Seq<char>, limit: nat) -> Seq<Seq<char>> {
    let p = lines.push(line);
    if p.len() > limit {
        p.drop_first()
    } else {
        p
    }
}

/// The last `n` elements of `s` (all of them when there are fewer).
pub open spec fn last_lines(s: Seq<Seq<char>>, n: nat) -> Seq<Seq<char>> {
    if s.len() > n {
        s.skip(s.len() - n)
    } else {
        s
    }
}

/// Adds an output line to a job, dropping its oldest line when it would
/// hold more than [`MAX_JOB_OUTPUT_LINES`].
pub fn push_output(job: &mut Job, line: String)
    ensures
        texts(final(job).output@) == capped_push(texts(old(job).output@), line@, MAX_JOB_OUTPUT_LINES as nat),
        old(job).well_formed() ==> final(job).well_formed(),
        final(job).id == old(job).id,
        final(job).service_id == old(job).service_id,
        final(job).cmd == old(job).cmd,
        final(job).state == old(job).state,
        final(job).exit_code == old(job).exit_code,
        final(job).started_at == old(job).started_at,
        final(job).finished_at == old(job).finished_at,
{
    let ghost before = texts(job.output@);
    job.output.push(line);
    assert(texts(job.output@) =~= before.push(line@));
    if job.output.len() > MAX_JOB_OUTPUT_LINES {
        let ghost p = job.output@;
        job.output.remove(0);
        assert(texts(job.output@) =~= texts(p).drop_first());
    }
}

/// Marks a job finished: `done` when the exit code is 0, `failed` otherwise.
pub fn finish_job(job: &mut Job, exit_code: i32, finished_at: u64)
    ensures
        final(job).state@ == (if exit_code == 0 { "done"@ } else { "failed"@ }),
        final(job).exit_code == Some(exit_code),
        final(job).finished_at == Some(finished_at),
        final(job).id == old(job).id,
        final(job).service_id == old(job).service_id,
        final(job).cmd == old(job).cmd,
        final(job).output == old(job).output,
        final(job).started_at == old(job).started_at,
{
    job.state = if exit_code == 0 { "done".to_string() } else { "failed".to_string() };
    job.exit_code = Some(exit_code);
    job.finished_at = Some(finished_at);
}

/// A job's output is always the most recent lines it was sent: adding a
/// line to the last `n` lines of a history and capping at `n` gives the
/// last `n` lines of the history with that line added.
pub proof fn lemma_output_window(history: Seq<Seq<char>>, line: Seq<char>, n: nat)
    requires
        n > 0,
    ensures
        capped_push(last_lines(history, n), line, n) == last_lines(history.push(line), n),
        last_lines(history.push(line), n).len() <= n,
{
    let h2 = history.push(line);
    if history.len() > n {
        assert(capped_push(last_lines(history, n), line, n) =~= h2.skip(h2.len() - n));
    } else if history.len() == n {
        assert(capped_push(last_lines(history, n), line, n) =~= h2.skip(h2.len() - n));
    } else {
        assert(capped_push(last_lines(history, n), line, n) =~= h2);
    }
}


/// Value of a hexadecimal digit character.
pub open spec fn hex_digit_value(c: char) -> int {
    let u = c as u32;
    if u <= 57 {
        u - 48
    } else {
        u - 87
    }
}

/// Value of a string of hexadecimal digits.
pub open spec fn hex_value(s: Seq<char>) -> int
    decreases s.len(),
{
    if s.len() == 0 {
        0
    } else {
        hex_value(s.drop_last()) * 16 + hex_digit_value(s.last())
    }
}

/// Sixteen to the power `k`.
pub open spec fn pow16(k: nat) -> nat
    decreases k,
{
    if k == 0 {
        1
    } else {
        16 * pow16((k - 1) as nat)
    }
}

proof fn lemma_hex_text_value(n: nat)
    ensures
        hex_value(hex_text(n)) == n,
    decreases n,
{
    if n < 16 {
        assert(hex_text(n) =~= seq![digit_char(n)]);
        assert(seq![digit_char(n)].drop_last() =~= Seq::<char>::empty());
        if n < 10 {
            assert(((48 + n) as char) as u32 == 48 + n);
        } else {
            assert(((87 + n) as char) as u32 == 87 + n);
        }
        assert(hex_digit_value(digit_char(n)) == n);
        assert(hex_text(n).drop_last() =~= Seq::<char>::empty());
        assert(hex_value(Seq::<char>::empty()) == 0);
        assert(hex_value(hex_text(n)) == hex_value(hex_text(n).drop_last()) * 16 + hex_digit_value(hex_text(n).last()));
    } else {
        lemma_hex_text_value(n / 16);
        let d = n % 16;
        assert(hex_text(n).drop_last() =~= hex_text(n / 16));
        if d < 10 {
            assert(((48 + d) as char) as u32 == 48 + d);
        } else {
            assert(((87 + d) as char) as u32 == 87 + d);
        }
        assert(hex_digit_value(digit_char(d)) == d);
        assert(hex_text(n).last() == digit_char(d));
        vstd::arithmetic::div_mod::lemma_fundamental_div_mod(n as int, 16);
        assert(hex_value(hex_text(n)) == hex_value(hex_text(n / 16)) * 16 + d);
    }
}

proof fn lemma_hex_text_len(n: nat, k: nat)
    requires
        k >= 1,
        n < pow16(k),
    ensures
        hex_text(n).len() <= k,
    decreases n,
{
    if n >= 16 {
        assert(pow16(k) == 16 * pow16((k - 1) as nat));
        if k == 1 {
            assert(pow16(0) == 1);
        } else {
            lemma_hex_text_len(n / 16, (k - 1) as nat);
        }
    }
}

proof fn lemma_hex_value_zero_prefix(z: Seq<char>, s: Seq<char>)
    requires
        forall|i: int| 0 <= i < z.len() ==> z[i] == '0',
    ensures
        hex_value(z + s) == hex_value(s),
    decreases z.len() + s.len(),
{
    if s.len() == 0 {
        assert(z + s =~= z);
        if z.len() > 0 {
            lemma_hex_value_zero_prefix(z.drop_last(), s);
            assert(z.drop_last() + s =~= z.drop_last());
            assert(('0' as u32) == 48);
        }
    } else {
        lemma_hex_value_zero_prefix(z, s.drop_last());
        assert((z + s).drop_last() =~= z + s.drop_last());
    }
}

proof fn lemma_padded_value(n: nat, w: nat)
    requires
        w >= 1,
        n < pow16(w),
    ensures
        zero_padded(hex_text(n), w).len() == w,
        hex_value(zero_padded(hex_text(n), w)) == n,
{
    lemma_hex_text_len(n, w);
    lemma_hex_text_value(n);
    let h = hex_text(n);
    if h.len() < w {
        let z = Seq::new((w - h.len()) as nat, |i: int| '0');
        lemma_hex_value_zero_prefix(z, h);
    }
}

/// Job ids tell their times and counters apart: for times below 16^13 ms
/// (beyond the year 100000), two equal ids have equal times and equal
/// counters modulo 4096.
pub proof fn lemma_job_ids_distinct(t1: u64, c1: u64, t2: u64, c2: u64)
    requires
        t1 < pow16(13),
        t2 < pow16(13),
        job_id_text(t1, c1) == job_id_text(t2, c2),
    ensures
        t1 == t2,
        c1 % 4096 == c2 % 4096,
{
    assert(pow16(0) == 1);
    assert(pow16(1) == 16);
    assert(pow16(2) == 256);
    assert(pow16(3) == 4096);
    lemma_padded_value(t1 as nat, 13);
    lemma_padded_value(t2 as nat, 13);
    lemma_padded_value((c1 % 4096) as nat, 3);
    lemma_padded_value((c2 % 4096) as nat, 3);
    let a1 = zero_padded(hex_text(t1 as nat), 13);
    let b1 = zero_padded(hex_text((c1 % 4096) as nat), 3);
    let a2 = zero_padded(hex_text(t2 as nat), 13);
    let b2 = zero_padded(hex_text((c2 % 4096) as nat), 3);
    assert((a1 + b1).take(13) =~= a1);
    assert((a2 + b2).take(13) =~= a2);
    assert((a1 + b1).skip(13) =~= b1);
    assert((a2 + b2).skip(13) =~= b2);
}

/// A lower-case hexadecimal digit.
pub open spec fn is_lower_hex(c: char) -> bool {
    ('0' <= c <= '9') || ('a' <= c <= 'f')
}

proof fn lemma_hex_text_digits(n: nat)
    ensures
        forall|i: int| 0 <= i < hex_text(n).len() ==> is_lower_hex(#[trigger] hex_text(n)[i]),
    decreases n,
{
    if n >= 16 {
        lemma_hex_text_digits(n / 16);
        let d = n % 16;
        assert forall|i: int| 0 <= i < hex_text(n).len() implies is_lower_hex(#[trigger] hex_text(n)[i]) by {
            if i < hex_text(n).len() - 1 {
                assert(hex_text(n)[i] == hex_text(n / 16)[i]);
            } else if d < 10 {
                assert(((48 + d) as char) as u32 == 48 + d);
            } else {
                assert(((87 + d) as char) as u32 == 87 + d);
            }
        }
    } else if n < 10 {
        assert(((48 + n) as char) as u32 == 48 + n);
    } else {
        assert(((87 + n) as char) as u32 == 87 + n);
    }
}

proof fn lemma_padded_digits(n: nat, w: nat)
    ensures
        forall|i: int| 0 <= i < zero_padded(hex_text(n), w).len() ==> is_lower_hex(
            #[trigger] zero_padded(hex_text(n), w)[i],
        ),
{
    lemma_hex_text_digits(n);
    let h = hex_text(n);
    if h.len() < w {
        let z = Seq::new((w - h.len()) as nat, |i: int| '0');
        assert forall|i: int| 0 <= i < (z + h).len() implies is_lower_hex(#[trigger] (z + h)[i]) by {
            if i >= z.len() {
                assert((z + h)[i] == h[i - z.len()]);
            }
        }
    }
}

/// Job ids made with successive counter values differ, whatever times they
/// carry (below 16^13 ms, beyond the year 100000), and every job id is
/// sixteen lower-case hexadecimal digits: thirteen for the time, three for
/// the counter.
pub proof fn lemma_successive_job_ids_differ(t1: u64, t2: u64, c: u64)
    requires
        t1 < pow16(13),
        t2 < pow16(13),
        c < u64::MAX,
    ensures
        job_id_text(t1, c) != job_id_text(t2, (c + 1) as u64),
        job_id_text(t1, c).len() == 16,
        forall|i: int| 0 <= i < 16 ==> is_lower_hex(#[trigger] job_id_text(t1, c)[i]),
{
    if job_id_text(t1, c) == job_id_text(t2, (c + 1) as u64) {
        lemma_job_ids_distinct(t1, c, t2, (c + 1) as u64);
        assert(c % 4096 != (c + 1) % 4096);
    }
    assert(pow16(0) == 1);
    assert(pow16(1) == 16);
    assert(pow16(2) == 256);
    assert(pow16(3) == 4096);
    lemma_padded_value(t1 as nat, 13);
    lemma_padded_value((c % 4096) as nat, 3);
    lemma_padded_digits(t1 as nat, 13);
    lemma_padded_digits((c % 4096) as nat, 3);
    let a = zero_padded(hex_text(t1 as nat), 13);
    let b = zero_padded(hex_text((c % 4096) as nat), 3);
    assert forall|i: int| 0 <= i < 16 implies is_lower_hex(#[trigger] job_id_text(t1, c)[i]) by {
        if i < 13 {
            assert(job_id_text(t1, c)[i] == a[i]);
        } else {
            assert(job_id_text(t1, c)[i] == b[i - 13]);
        }
    }
}

} // verus!
