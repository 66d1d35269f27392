use ziro::port::{
    find_processes_by_ports, list_all_ports, parse_lsof_output, parse_netstat_output,
    parse_proc_net, upsert_binding, PortBinding, ProcessInfo,
};

fn proc_info(pid: u32, name: &str) -> ProcessInfo {
    ProcessInfo {
        pid,
        name: name.to_string(),
        cmd: format!("/usr/bin/{name}"),
        cpu_permille: 0,
        memory: 1024,
    }
}

#[test]
fn test_parse_netstat_output() {
    let content = b"\
Active Connections\n\
\n\
  Proto  Local Address          Foreign Address        State           PID\n\
\n\
  TCP    0.0.0.0:135            0.0.0.0:0              LISTENING       1234\n\
  TCP    [::]:8080              [::]:0                 LISTENING       500\n\
  junk line that does not parse\n";
    let bindings = parse_netstat_output(content);
    assert_eq!(bindings.len(), 2);
    assert_eq!(bindings[0].port, 135);
    assert_eq!(bindings[0].pid, 1234);
    assert_eq!(bindings[1].port, 8080);
    assert_eq!(bindings[1].pid, 500);
}

#[test]
fn test_parse_netstat_later_row_overwrites_port() {
    let content = b"h\nh\nh\nh\n\
  TCP    0.0.0.0:80   0.0.0.0:0   LISTENING   10\n\
  TCP    [::]:80      [::]:0      LISTENING   20\n";
    let bindings = parse_netstat_output(content);
    assert_eq!(bindings.len(), 1);
    assert_eq!(bindings[0].port, 80);
    assert_eq!(bindings[0].pid, 20);
}

#[test]
fn test_parse_lsof_output() {
    let content = b"\
COMMAND   PID   USER   FD   TYPE   DEVICE SIZE/OFF NODE NAME\n\
node    500   user   21u  IPv4   0x0      0t0  TCP *:8080 (LISTEN)\n";
    let bindings = parse_lsof_output(content);
    assert_eq!(bindings.len(), 1);
    assert_eq!(bindings[0].port, 8080);
    assert_eq!(bindings[0].pid, 500);
}

#[test]
fn test_parse_proc_net() {
    let content = b"\
  sl  local_address rem_address   st tx_queue rx_queue tr tm->when retrnsmt   uid  timeout inode\n\
   0: 0100007F:1F90 00000000:0000 0A 00000000:00000000 00:00000000 00000000  1000        0 12345 1\n";
    let entries = parse_proc_net(content);
    assert_eq!(entries.len(), 1);
    assert_eq!(entries[0].0, 0x1F90);
    assert_eq!(entries[0].1, 12345);
}

#[test]
fn test_upsert_binding() {
    let mut bindings: Vec<PortBinding> = Vec::new();
    upsert_binding(&mut bindings, PortBinding { port: 80, pid: 1 });
    upsert_binding(&mut bindings, PortBinding { port: 443, pid: 2 });
    upsert_binding(&mut bindings, PortBinding { port: 80, pid: 3 });
    assert_eq!(bindings.len(), 2);
    assert_eq!(bindings[0].port, 80);
    assert_eq!(bindings[0].pid, 3);
    assert_eq!(bindings[1].port, 443);
}

#[test]
fn test_resolve_requested_ports() {
    let ports: Vec<u16> = vec![80, 8080];
    let bindings = vec![PortBinding { port: 8080, pid: 500 }];
    let snapshot = vec![proc_info(500, "nginx")];
    let infos = find_processes_by_ports(&ports, &bindings, &snapshot);
    assert_eq!(infos.len(), 1);
    assert_eq!(infos[0].port, 8080);
    assert_eq!(infos[0].process.pid, 500);
    assert_eq!(infos[0].process.name, "nginx");
}

#[test]
fn test_resolve_unbound_port_is_not_an_error() {
    let ports: Vec<u16> = vec![80];
    let bindings: Vec<PortBinding> = Vec::new();
    let snapshot = vec![proc_info(500, "nginx")];
    let infos = find_processes_by_ports(&ports, &bindings, &snapshot);
    assert!(infos.is_empty());
}

#[test]
fn test_resolve_binding_without_process_yields_nothing() {
    let ports: Vec<u16> = vec![8080];
    let bindings = vec![PortBinding { port: 8080, pid: 999 }];
    let snapshot = vec![proc_info(500, "nginx")];
    let infos = find_processes_by_ports(&ports, &bindings, &snapshot);
    assert!(infos.is_empty());
}

#[test]
fn test_list_all_ports_sorted_strictly_ascending() {
    let bindings = vec![
        PortBinding { port: 8080, pid: 500 },
        PortBinding { port: 80, pid: 1 },
        PortBinding { port: 443, pid: 2 },
    ];
    let snapshot = vec![proc_info(500, "nginx"), proc_info(1, "init"), proc_info(2, "web")];
    let infos = list_all_ports(&bindings, &snapshot);
    assert_eq!(infos.len(), 3);
    assert_eq!(infos[0].port, 80);
    assert_eq!(infos[1].port, 443);
    assert_eq!(infos[2].port, 8080);
    for w in infos.windows(2) {
        assert!(w[0].port < w[1].port);
    }
}
