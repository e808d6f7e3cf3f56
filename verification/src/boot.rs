//! What the enclave's init mounts and opens as it boots.
use vstd::prelude::*;

verus! {

/// Reads `libc::MS_NOSUID`: 0x02 on Linux.
#[verifier::external_body]
fn ms_nosuid() -> (f: u64)
    ensures
        f == 0x02,
{
    libc::MS_NOSUID as u64
}

/// Reads `libc::MS_NODEV`: 0x04 on Linux.
#[verifier::external_body]
fn ms_nodev() -> (f: u64)
    ensures
        f == 0x04,
{
    libc::MS_NODEV as u64
}

/// Reads `libc::MS_NOEXEC`: 0x08 on Linux.
#[verifier::external_body]
fn ms_noexec() -> (f: u64)
    ensures
        f == 0x08,
{
    libc::MS_NOEXEC as u64
}

/// Mount flags: no set-uid programs, no execution (`MS_NOSUID | MS_NOEXEC`).
pub open spec fn no_se() -> u64 {
    0x0a
}

/// Mount flags: no device files, no set-uid programs, no execution
/// (`MS_NODEV | MS_NOSUID | MS_NOEXEC`).
pub open spec fn no_dse() -> u64 {
    0x0e
}

/// One file system to mount.
pub struct Mount {
    pub source: String,
    pub target: String,
    pub fstype: String,
    pub flags: u64,
    pub data: String,
}

impl View for Mount {
    type V = (Seq<char>, Seq<char>, Seq<char>, u64, Seq<char>);

    open spec fn view(&self) -> (Seq<char>, Seq<char>, Seq<char>, u64, Seq<char>) {
        (self.source@, self.target@, self.fstype@, self.flags, self.data@)
    }
}

fn mount(source: &str, target: &str, fstype: &str, flags: u64, data: &str) -> (m: Mount)
    ensures
        m@ == (source@, target@, fstype@, flags, data@),
{
    Mount {
        source: source.to_owned(),
        target: target.to_owned(),
        fstype: fstype.to_owned(),
        flags,
        data: data.to_owned(),
    }
}

/// The common file systems that the enclave mounts, with conservative
/// permissions, in the order they are mounted.
pub fn rootfs_mounts() -> (mounts: Vec<Mount>)
    ensures
        mounts@.len() == 8,
        mounts@[0]@ == ("devtmpfs"@, "/dev"@, "devtmpfs"@, no_se(), "mode=0755"@),
        mounts@[1]@ == ("devpts"@, "/dev/pts"@, "devpts"@, no_se(), ""@),
        mounts@[2]@ == ("shm"@, "/dev/shm"@, "tmpfs"@, no_dse(), "mode=0755"@),
        mounts@[3]@ == ("proc"@, "/proc"@, "proc"@, no_dse(), "hidepid=2"@),
        mounts@[4]@ == ("tmpfs"@, "/run"@, "tmpfs"@, no_dse(), "mode=0755"@),
        mounts@[5]@ == ("tmpfs"@, "/tmp"@, "tmpfs"@, no_dse(), ""@),
        mounts@[6]@ == ("sysfs"@, "/sys"@, "sysfs"@, no_dse(), ""@),
        mounts@[7]@ == ("cgroup_root"@, "/sys/fs/cgroup"@, "tmpfs"@, no_dse(), "mode=0755"@),
{
    let nosuid = ms_nosuid();
    let nodev = ms_nodev();
    let noexec = ms_noexec();
    let no_dse_flags = nodev | nosuid | noexec;
    let no_se_flags = nosuid | noexec;
    assert(no_dse_flags == 0x0e && no_se_flags == 0x0a) by (bit_vector)
        requires
            nosuid == 0x02u64,
            nodev == 0x04u64,
            noexec == 0x08u64,
            no_dse_flags == nodev | nosuid | noexec,
            no_se_flags == nosuid | noexec,
    ;
    let mut mounts: Vec<Mount> = Vec::new();
    mounts.push(mount("devtmpfs", "/dev", "devtmpfs", no_se_flags, "mode=0755"));
    mounts.push(mount("devpts", "/dev/pts", "devpts", no_se_flags, ""));
    mounts.push(mount("shm", "/dev/shm", "tmpfs", no_dse_flags, "mode=0755"));
    mounts.push(mount("proc", "/proc", "proc", no_dse_flags, "hidepid=2"));
    mounts.push(mount("tmpfs", "/run", "tmpfs", no_dse_flags, "mode=0755"));
    mounts.push(mount("tmpfs", "/tmp", "tmpfs", no_dse_flags, ""));
    mounts.push(mount("sysfs", "/sys", "sysfs", no_dse_flags, ""));
    mounts.push(mount("cgroup_root", "/sys/fs/cgroup", "tmpfs", no_dse_flags, "mode=0755"));
    mounts
}

/// A standard stream that init reopens on a file.
pub struct ConsoleStream {
    pub path: String,
    pub mode: String,
    pub fd: i32,
}

impl View for ConsoleStream {
    type V = (Seq<char>, Seq<char>, i32);

    open spec fn view(&self) -> (Seq<char>, Seq<char>, i32) {
        (self.path@, self.mode@, self.fd)
    }
}

/// Standard input, output and error on the console, in that order.
pub fn console_streams() -> (streams: Vec<ConsoleStream>)
    ensures
        streams@.len() == 3,
        streams@[0]@ == ("/dev/console"@, "r"@, 0i32),
        streams@[1]@ == ("/dev/console"@, "w"@, 1i32),
        streams@[2]@ == ("/dev/console"@, "w"@, 2i32),
{
    let mut streams: Vec<ConsoleStream> = Vec::new();
    streams.push(ConsoleStream { path: "/dev/console".to_owned(), mode: "r".to_owned(), fd: 0 });
    streams.push(ConsoleStream { path: "/dev/console".to_owned(), mode: "w".to_owned(), fd: 1 });
    streams.push(ConsoleStream { path: "/dev/console".to_owned(), mode: "w".to_owned(), fd: 2 });
    streams
}

} // verus!
