use rustboard::ssh::{merged_command, ssh_arguments, ssh_outcome, ssh_target, streamed_exit_code, tail_command};

#[test]
fn targets() {
    assert_eq!(ssh_target(Some("ubuntu"), "10.0.2.10"), "ubuntu@10.0.2.10");
    assert_eq!(ssh_target(None, "10.0.2.10"), "10.0.2.10");
}

#[test]
fn arguments() {
    let args = ssh_arguments(Some("u"), "h", "uptime");
    assert_eq!(
        args,
        vec![
            "-o", "BatchMode=yes", "-o", "ConnectTimeout=10", "-o", "ServerAliveInterval=15", "-o",
            "ServerAliveCountMax=3", "-o", "StrictHostKeyChecking=accept-new", "u@h", "uptime"
        ]
    );
}

#[test]
fn commands() {
    assert_eq!(merged_command("ls /"), "{ ls /; } 2>&1");
    assert_eq!(tail_command(200, "/var/log/x.log"), "tail -n 200 /var/log/x.log");
}

#[test]
fn outcomes() {
    assert_eq!(ssh_outcome(true, "out\n".to_string(), "warning\n"), Ok("out\nwarning\n".to_string()));
    assert_eq!(ssh_outcome(true, "out".to_string(), ""), Ok("out".to_string()));
    assert_eq!(ssh_outcome(false, "out".to_string(), "denied"), Err("ssh failed: denied".to_string()));
    assert_eq!(streamed_exit_code(Some(3)), 3);
    assert_eq!(streamed_exit_code(None), -1);
}
