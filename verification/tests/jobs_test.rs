use rustboard::jobs::{finish_job, format_job_id, gen_job_id, millis_from_clock, millis_since_epoch, new_job, now_millis, push_output, MAX_JOB_OUTPUT_LINES};

#[test]
fn job_ids_are_padded_hex() {
    assert_eq!(format_job_id(0x18f3b2a4c10, 0xabc), "0018f3b2a4c10abc");
    assert_eq!(format_job_id(1, 0x1001), "0000000000001001");
    assert_eq!(format_job_id(0, 5), "0000000000000005");
    let id = gen_job_id(7);
    assert_eq!(id.len(), 16);
    assert!(id.ends_with("007"));
    assert!(now_millis() > 0);
}

#[test]
fn job_lifecycle() {
    let mut j = new_job("j1".to_string(), "svc".to_string(), "ls".to_string(), 5);
    assert_eq!(j.state, "running");
    assert!(j.output.is_empty());
    push_output(&mut j, "a".to_string());
    push_output(&mut j, "b".to_string());
    assert_eq!(j.output, vec!["a".to_string(), "b".to_string()]);
    finish_job(&mut j, 0, 9);
    assert_eq!(j.state, "done");
    assert_eq!(j.exit_code, Some(0));
    assert_eq!(j.finished_at, Some(9));
    let mut k = new_job("j2".to_string(), "svc".to_string(), "false".to_string(), 5);
    finish_job(&mut k, -1, 6);
    assert_eq!(k.state, "failed");
}

#[test]
fn job_output_keeps_last_lines() {
    let mut j = new_job("j".to_string(), "s".to_string(), "c".to_string(), 0);
    for i in 0..(MAX_JOB_OUTPUT_LINES + 5) {
        push_output(&mut j, i.to_string());
    }
    assert_eq!(j.output.len(), MAX_JOB_OUTPUT_LINES);
    assert_eq!(j.output[0], "5");
    assert_eq!(j.output[MAX_JOB_OUTPUT_LINES - 1], (MAX_JOB_OUTPUT_LINES + 4).to_string());
}

#[test]
fn clock_readings_are_cut_to_64_bits() {
    assert_eq!(millis_from_clock(1_700_000_000_123), 1_700_000_000_123);
    assert_eq!(millis_from_clock((1u128 << 64) + 5), 5);
    assert_eq!(millis_from_clock(u64::MAX as u128), u64::MAX);
}

#[test]
fn successive_job_ids_differ() {
    let a = format_job_id(0x18f3b2a4c10, 4095);
    let b = format_job_id(0x18f3b2a4c10, 4096);
    assert_ne!(a, b);
    assert_eq!(b, "0018f3b2a4c10000");
    for id in [a, b, gen_job_id(7)] {
        assert_eq!(id.len(), 16);
        assert!(id.chars().all(|c| c.is_ascii_digit() || ('a'..='f').contains(&c)));
    }
}

#[test]
fn readings_before_the_epoch_give_zero() {
    assert_eq!(millis_since_epoch(None), 0);
    assert_eq!(millis_since_epoch(Some(1_700_000_000_123)), 1_700_000_000_123);
    assert_eq!(millis_since_epoch(Some((1u128 << 64) + 9)), 9);
}
