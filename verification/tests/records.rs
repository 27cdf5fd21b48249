use proctext::cpu::cpus_from_text;
use proctext::memory::Memory;
use proctext::network::{Network, NetworkDevice};
use proctext::process::{Process, State};
use proctext::DecodeError;

const CPUINFO_SECTION: &str = "processor\t: 0\n\
vendor_id\t: GenuineIntel\n\
cpu family\t: 6\n\
model\t\t: 154\n\
model name\t: 12th Gen Example\n\
microcode\t: 0x430\n\
cpu MHz\t\t: 400.000\n\
cache size\t: 24576 KB\n\
physical id\t: 0\n\
siblings\t: 16\n\
core id\t\t: 0\n\
cpu cores\t: 10\n\
apicid\t\t: 0\n\
initial apicid\t: 0\n\
fpu\t\t: yes\n\
fpu_exception\t: yes\n\
cpuid level\t: 32\n\
wp\t\t: yes\n\
flags\t\t: fpu vme de pse\n\
vmx flags\t: vnmi invvpid\n\
bugs\t\t: spectre_v1 spectre_v2\n\
bogomips\t: 4838.40\n\
clflush size\t: 64\n\
cache_alignment\t: 64\n\
address sizes\t: 39 bits physical, 48 bits virtual\n";

#[test]
fn cpu_test_parse() {
    let mut doc = String::from(CPUINFO_SECTION);
    doc.push('\n');
    doc.push_str(CPUINFO_SECTION);

    let cpus = cpus_from_text(&doc).unwrap();
    assert_eq!(cpus.len(), 2);
    assert_eq!(cpus[0].processor, 0);
    assert_eq!(cpus[0].vendor_id, "GenuineIntel");
    assert_eq!(cpus[0].cpu_family, 6);
    assert_eq!(cpus[0].model, 154);
    assert_eq!(cpus[0].model_name, "12th Gen Example");
    assert_eq!(cpus[0].cache_size, 24576);
    assert_eq!(cpus[0].cpu_mhz, "400.000");
    assert!(cpus[0].fpu);
    assert!(cpus[0].wp);
    assert_eq!(cpus[0].clflush_size, 64);
    // The optional field's key is absent, and that is no error.
    assert_eq!(cpus[0].power_management, None);
}

#[test]
fn cpu_parse_sec_closes_section() {
    // A section without its final newline decodes all the same.
    let section = CPUINFO_SECTION.strip_suffix('\n').unwrap();
    let cpu = proctext::cpu::CPU::parse_sec(section).unwrap();
    assert_eq!(cpu.siblings, 16);
}

#[test]
fn memory_test_parse() {
    let meminfo = "MemTotal:       32587776 kB\n\
MemFree:         1234567 kB\n\
MemAvailable:   20000000 kB\n\
Buffers:          500000 kB\n\
Cached:          9000000 kB\n\
SwapCached:            0 kB\n\
Active:         12000000 kB\n\
Inactive:        8000000 kB\n\
Active(anon):    7000000 kB\n\
Inactive(anon):   100000 kB\n\
Active(file):    5000000 kB\n\
Inactive(file):  7900000 kB\n\
Unevictable:      100000 kB\n\
Mlocked:              96 kB\n\
SwapTotal:       2097148 kB\n\
SwapFree:        2097148 kB\n\
Zswap:                 0 kB\n\
Zswapped:              0 kB\n\
Dirty:              1000 kB\n\
Writeback:             0 kB\n\
AnonPages:       6500000 kB\n\
Mapped:          1500000 kB\n\
Shmem:            800000 kB\n";

    let mem = Memory::from_text(meminfo).unwrap();
    assert_eq!(mem.total, 32587776);
    assert_eq!(mem.free, 1234567);
    assert_eq!(mem.available, 20000000);
    assert_eq!(mem.mlocked, 96);
    assert_eq!(mem.shmem, 800000);
}

#[test]
fn memory_missing_counter_fails() {
    assert_eq!(
        Memory::from_text("MemTotal: 1 kB\n"),
        Err(DecodeError::Eof)
    );
}

#[test]
fn test_network_parse() {
    let mut res = Network::new();
    res.insert_device(
        String::from("eth0"),
        NetworkDevice::from_counters(Some("123456\n"), Some("654321\n")),
    );

    assert_eq!(res.len(), 1);
    let dev = res.get("eth0").unwrap();
    assert_eq!(dev.total_rx, Some(123456));
    assert_eq!(dev.total_tx, Some(654321));
}

#[test]
fn test_network_device_parse() {
    let res = NetworkDevice::from_counters(Some("1000\n"), Some("2000\n"));

    assert_ne!(res.total_rx, None);
    assert_ne!(res.total_tx, None);
}

#[test]
fn network_replaces_known_device() {
    let mut net = Network::new();
    net.insert_device(String::from("lo"), NetworkDevice::from_counters(Some("1\n"), None));
    net.insert_device(String::from("lo"), NetworkDevice::from_counters(Some("2\n"), None));
    assert_eq!(net.len(), 1);
    assert_eq!(net.get("lo").unwrap().total_rx, Some(2));
}

#[test]
fn network_unreadable_counter_is_absent() {
    let dev = NetworkDevice::from_counters(None, Some("not a number\n"));
    assert_eq!(dev.total_rx, None);
    assert_eq!(dev.total_tx, None);
}

#[test]
fn process_test_parse() {
    Process::new("1 (systemd) S 0 1 1 0 -1 4194560 643700 109464643 189 69440 268 818 7489706 1155578 20 0 1 0 12 23293952 3585 18446744073709551615 1 1 0 0 0 0 671173123 4096 1260 0 0 0 17 5 0 0 0 0 0 0 0 0 0 0 0 0 0\n", Some("jeff".into())).expect("");
}

#[test]
fn process_test_parse_2() {
    Process::new("252201 (kworker/u33:3+i915_flip) D 2 0 0 0 -1 69238880 0 0 0 0 0 282 0 0 0 -20 1 0 16881972 0 0 18446744073709551615 0 0 0 0 0 0 0 2147483647 0 0 0 0 17 8 0 0 0 0 0 0 0 0 0 0 0 0 0\n", Some("jeff".into())).expect("");
}

#[test]
fn process_fields_decode_exactly() {
    let p = Process::new("1 (systemd) S 0 1 1 0 -1 4194560 643700 109464643 189 69440 268 818 7489706 1155578 20 0 1 0 12 23293952 3585 18446744073709551615 1 1 0 0 0 0 671173123 4096 1260 0 0 0 17 5 0 0 0 0 0 0 0 0 0 0 0 0 0\n", Some("jeff".into())).unwrap();
    assert_eq!(p.user_name.as_deref(), Some("jeff"));
    assert_eq!(p.pid, 1);
    assert_eq!(p.command, "systemd");
    assert_eq!(p.state, State::S);
    assert_eq!(p.ppid, 0);
    assert_eq!(p.tpgid, -1);
    assert_eq!(p.flags, 4194560);
    assert_eq!(p.rsslim, 18446744073709551615);
    assert_eq!(p.exit, 0);
}

#[test]
fn process_command_may_hold_spaces_and_state_decodes() {
    let p = Process::new("252201 (kworker/u33:3+i915_flip) D 2 0 0 0 -1 69238880 0 0 0 0 0 282 0 0 0 -20 1 0 16881972 0 0 18446744073709551615 0 0 0 0 0 0 0 2147483647 0 0 0 0 17 8 0 0 0 0 0 0 0 0 0 0 0 0 0\n", None).unwrap();
    assert_eq!(p.command, "kworker/u33:3+i915_flip");
    assert_eq!(p.state, State::D);
    assert_eq!(p.nice, -20);
}

#[test]
fn process_short_line_is_shape_mismatch() {
    // One field fewer than the stat shape declares.
    let r = Process::new("252201 (kworker/u33:3+i915_flip) D 2 0 0 0 -1 69238880 0 0 0 0 0 282 0 0 0 -20 1 0 16881972 0 0 18446744073709551615 0 0 0 0 0 0 0 2147483647 0 0 0 0 17 8 0 0 0 0 0 0 0 0 0 0 0 0\n", None);
    assert_eq!(r, Err(DecodeError::ShapeMismatch));
}

#[test]
fn process_bad_state_is_grammar_mismatch() {
    let r = Process::new("1 (x) Q 0 1 1 0 -1 4194560 643700 109464643 189 69440 268 818 7489706 1155578 20 0 1 0 12 23293952 3585 18446744073709551615 1 1 0 0 0 0 671173123 4096 1260 0 0 0 17 5 0 0 0 0 0 0 0 0 0 0 0 0 0\n", None);
    assert_eq!(r, Err(DecodeError::GrammarMismatch));
}
