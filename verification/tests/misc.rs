use common::boot::{console_streams, rootfs_mounts};
use common::command::{run_ip, run_static, run_with_ld, setup_enclave_tunnel, split_args, IP_PATH, LD_LOADER};
use common::digest::sha_256;
use common::hex::to_hex_string;
use common::tun::{tun_request, TUNSETIFF};
use common::vsock::{new_vsock_raw, VMADDR_FLAG_TO_HOST, VMADDR_NO_FLAGS};

#[test]
fn hex_is_upper_case_two_digits_per_byte() {
    assert_eq!(to_hex_string(&[0xbe, 0x0f]), "BE0F");
    assert_eq!(to_hex_string(&[]), "");
    assert_eq!(to_hex_string(&[0x00, 0x7f, 0xa0, 0xff]), "007FA0FF");
    let all: Vec<u8> = (0..=255u8).collect();
    assert_eq!(to_hex_string(&all).len(), 512);
}

#[test]
fn sha_256_of_abc() {
    let d = sha_256(b"abc");
    assert_eq!(
        to_hex_string(&d),
        "BA7816BF8F01CFEA414140DE5DAE2223B00361A396177A9CB410FF61F20015AD"
    );
    let e = sha_256(b"");
    assert_eq!(
        to_hex_string(&e),
        "E3B0C44298FC1C149AFBF4C8996FB92427AE41E4649B934CA495991B7852B855"
    );
}

#[test]
fn split_keeps_empty_pieces() {
    assert_eq!(split_args("a b"), vec!["a", "b"]);
    assert_eq!(split_args(""), vec![""]);
    assert_eq!(split_args("a  b "), vec!["a", "", "b", ""]);
    assert_eq!(split_args(" "), vec!["", ""]);
    assert_eq!(split_args("ünï côde"), vec!["ünï", "côde"]);
}

#[test]
fn split_then_join_gives_the_string_back() {
    for s in ["", "a", "tuntap add enclave_egress mode tun", "  x  y ", "é é"] {
        assert_eq!(split_args(s).join(" "), s);
        assert!(split_args(s).iter().all(|p| !p.contains(' ')));
    }
}

#[test]
fn invocations() {
    let inv = run_with_ld("/usr/sbin/ip", "link set lo up");
    assert_eq!(inv.program, LD_LOADER);
    assert_eq!(inv.args, vec!["/usr/sbin/ip", "link", "set", "lo", "up"]);
    let inv = run_static("/downer", "");
    assert_eq!(inv.program, "/downer");
    assert_eq!(inv.args, vec![""]);
    let cmd = run_ip("route add default dev enclave_egress", "unable to route");
    assert_eq!(cmd.invocation.program, "/lib/ld-musl-x86");
    assert_eq!(cmd.invocation.args[0], IP_PATH);
    assert_eq!(cmd.invocation.args[1..], ["route", "add", "default", "dev", "enclave_egress"]);
    assert_eq!(cmd.failure, "unable to route");
}

#[test]
fn enclave_tunnel_setup_steps() {
    let cmds = setup_enclave_tunnel();
    let got: Vec<(Vec<String>, String)> =
        cmds.iter().map(|c| (c.invocation.args[1..].to_vec(), c.failure.clone())).collect();
    let want = [
        ("tuntap add enclave_egress mode tun", "tuntap add failed"),
        ("link set lo up", "unable to bring up lo"),
        ("address add 10.0.0.1/32 dev lo", "ip assign to lo failed"),
        ("link set enclave_egress up", "unable to bring up egress"),
        ("route add default dev enclave_egress", "unable to route"),
    ];
    assert_eq!(got.len(), want.len());
    for ((args, fail), (wa, wf)) in got.iter().zip(want.iter()) {
        assert_eq!(args.join(" "), *wa);
        assert_eq!(fail, wf);
    }
    assert!(cmds.iter().all(|c| c.invocation.program == LD_LOADER && c.invocation.args[0] == IP_PATH));
}

#[test]
fn tun_request_names_and_flags() {
    let r = tun_request("enclave_egress");
    assert_eq!(r.flags, 0x1001);
    assert_eq!(r.name.len(), 16);
    assert_eq!(&r.name[..14], b"enclave_egress");
    assert!(r.name[14..].iter().all(|&b| b == 0));
    let long = tun_request("a_very_long_interface_name");
    assert_eq!(&long.name[..15], b"a_very_long_int");
    assert_eq!(long.name[15], 0);
    assert_eq!(TUNSETIFF, 0x400454ca);
}

#[test]
fn vsock_raw_address() {
    let a = new_vsock_raw(16, 9001, VMADDR_FLAG_TO_HOST);
    assert_eq!(a.svm_family, 40);
    assert_eq!(a.svm_reserved1, 0);
    assert_eq!(a.svm_cid, 16);
    assert_eq!(a.svm_port, 9001);
    assert_eq!(a.svm_flags, 1);
    assert_eq!(a.svm_zero, [0, 0, 0]);
    assert_eq!(new_vsock_raw(3, 1, VMADDR_NO_FLAGS).svm_flags, 0);
}

#[test]
fn rootfs_mount_table() {
    let m = rootfs_mounts();
    assert_eq!(m.len(), 8);
    assert_eq!(
        (m[0].source.as_str(), m[0].target.as_str(), m[0].fstype.as_str(), m[0].flags, m[0].data.as_str()),
        ("devtmpfs", "/dev", "devtmpfs", (libc::MS_NOSUID | libc::MS_NOEXEC) as u64, "mode=0755")
    );
    assert_eq!(m[3].data, "hidepid=2");
    assert_eq!(m[3].flags, (libc::MS_NODEV | libc::MS_NOSUID | libc::MS_NOEXEC) as u64);
    assert_eq!(m[7].target, "/sys/fs/cgroup");
    assert_eq!(m[7].source, "cgroup_root");
}

#[test]
fn console_stream_table() {
    let s = console_streams();
    assert_eq!(s.len(), 3);
    assert_eq!((s[0].path.as_str(), s[0].mode.as_str(), s[0].fd), ("/dev/console", "r", 0));
    assert_eq!((s[2].path.as_str(), s[2].mode.as_str(), s[2].fd), ("/dev/console", "w", 2));
}
