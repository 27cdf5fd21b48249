//! Network device counters.
//!
//! A device's counters arrive as two small counter files, each a decimal
//! number on its own line; a counter that cannot be read or parsed is
//! simply absent. The collection of devices is map-like: one entry per
//! device name.

use vstd::prelude::*;

use crate::positional::{parse_u64_strict, split_ws, spec_strict_unsigned, spec_ws_fields};

verus! {

/// What a raw counter file's text denotes: its one whitespace-trimmed
/// decimal number, when it holds exactly one and that fits 64 bits.
pub open spec fn spec_counter(s: Seq<char>) -> Option<u64> {
    let fs = spec_ws_fields(s);
    if fs.len() == 1 {
        match spec_strict_unsigned(fs[0]) {
            Option::Some(n) => if n <= u64::MAX {
                Option::Some(n as u64)
            } else {
                Option::None
            },
            Option::None => Option::None,
        }
    } else {
        Option::None
    }
}

/// Parse one counter text: surrounding whitespace, one decimal number.
pub fn parse_counter(s: &str) -> (r: Option<u64>)
    ensures
        r == spec_counter(s@),
{
    proof {
        assert(s@.skip(0) =~= s@);
    }
    let fs = split_ws(s, 0);
    if fs.len() != 1 {
        return None;
    }
    proof {
        assert(fs@.map(|i: int, t: String| t@)[0] == fs@[0]@);
    }
    match parse_u64_strict(fs[0].as_str()) {
        Ok(n) => Some(n),
        Err(_) => None,
    }
}

/// The received and transmitted byte counters of one device; a counter
/// whose file was unreadable or malformed is absent.
#[derive(Debug, Clone, Copy, PartialEq, Eq, Structural)]
pub struct NetworkDevice {
    pub total_rx: Option<u64>,
    pub total_tx: Option<u64>,
}

impl NetworkDevice {
    /// Decode a device's counters from the raw texts of its counter
    /// files, where each was readable at all.
    pub fn from_counters(rx: Option<&str>, tx: Option<&str>) -> (r: NetworkDevice)
        ensures
            r.total_rx == match rx {
                Option::Some(s) => spec_counter(s@),
                Option::None => Option::None::<u64>,
            },
            r.total_tx == match tx {
                Option::Some(s) => spec_counter(s@),
                Option::None => Option::None::<u64>,
            },
    {
        let total_rx = match rx {
            Some(s) => parse_counter(s),
            None => None,
        };
        let total_tx = match tx {
            Some(s) => parse_counter(s),
            None => None,
        };
        NetworkDevice { total_rx, total_tx }
    }
}

/// Index of the first device named `name`, or -1 when there is none.
pub open spec fn spec_find_device(devs: Seq<(String, NetworkDevice)>, name: Seq<char>) -> int
    decreases devs.len(),
{
    if devs.len() == 0 {
        -1
    } else if devs[0].0@ == name {
        0
    } else {
        let r = spec_find_device(devs.skip(1), name);
        if r < 0 {
            -1
        } else {
            r + 1
        }
    }
}

pub proof fn lemma_find_device(devs: Seq<(String, NetworkDevice)>, name: Seq<char>)
    ensures
        spec_find_device(devs, name) >= 0 ==> spec_find_device(devs, name) < devs.len() && devs[
            spec_find_device(devs, name)
        ].0@ == name,
        spec_find_device(devs, name) >= 0 ==> forall|i: int|
            0 <= i < spec_find_device(devs, name) ==> (#[trigger] devs[i]).0@ != name,
        spec_find_device(devs, name) < 0 ==> forall|i: int|
            0 <= i < devs.len() ==> (#[trigger] devs[i]).0@ != name,
    decreases devs.len(),
{
    if devs.len() > 0 && devs[0].0@ != name {
        lemma_find_device(devs.skip(1), name);
        let r = spec_find_device(devs.skip(1), name);
        if r >= 0 {
            assert(devs[r + 1] == devs.skip(1)[r]);
            assert forall|i: int| 0 <= i < r + 1 implies (#[trigger] devs[i]).0@ != name by {
                if i > 0 {
                    assert(devs[i] == devs.skip(1)[i - 1]);
                }
            }
        } else {
            assert forall|i: int| 0 <= i < devs.len() implies (#[trigger] devs[i]).0@ != name by {
                if i > 0 {
                    assert(devs[i] == devs.skip(1)[i - 1]);
                }
            }
        }
    }
}

/// A position whose device carries `name`, with no earlier one carrying
/// it, pins `spec_find_device` exactly.
pub proof fn lemma_find_device_exact(
    devs: Seq<(String, NetworkDevice)>,
    name: Seq<char>,
    k: int,
)
    requires
        0 <= k < devs.len(),
        devs[k].0@ == name,
        forall|i: int| 0 <= i < k ==> (#[trigger] devs[i]).0@ != name,
    ensures
        spec_find_device(devs, name) == k,
{
    lemma_find_device(devs, name);
    let r = spec_find_device(devs, name);
    if r < 0 {
        assert(devs[k].0@ != name);
    } else if r < k {
        assert(devs[r].0@ != name);
    } else if r > k {
        assert(devs[k].0@ != name);
    }
}

/// The devices of one scan, map-like: at most one entry per device name.
#[derive(Debug, Clone, PartialEq)]
pub struct Network {
    pub devices: Vec<(String, NetworkDevice)>,
}

impl Network {
    /// Device names are unique.
    pub open spec fn wf(self) -> bool {
        forall|i: int, j: int|
            #![trigger self.devices@[i], self.devices@[j]]
            0 <= i < j < self.devices@.len() ==> self.devices@[i].0@ != self.devices@[j].0@
    }

    /// An empty device collection.
    pub fn new() -> (r: Network)
        ensures
            r.wf(),
            r.devices@.len() == 0,
    {
        Network { devices: Vec::new() }
    }

    /// Number of devices.
    pub fn len(&self) -> (r: usize)
        ensures
            r == self.devices@.len(),
    {
        self.devices.len()
    }

    /// Find the index of the device named `name`.
    fn find(&self, name: &str) -> (r: Option<usize>)
        ensures
            match r {
                Some(i) => i < self.devices@.len() && spec_find_device(self.devices@, name@)
                    == i as int,
                None => spec_find_device(self.devices@, name@) < 0,
            },
    {
        let n = self.devices.len();
        let mut j: usize = 0;
        while j < n
            invariant
                j <= n,
                n == self.devices@.len(),
                forall|i: int| 0 <= i < j ==> (#[trigger] self.devices@[i]).0@ != name@,
            decreases n - j,
        {
            if crate::text::str_eq(self.devices[j].0.as_str(), name) {
                proof {
                    lemma_find_device_exact(self.devices@, name@, j as int);
                }
                return Some(j);
            }
            j = j + 1;
        }
        proof {
            lemma_find_device(self.devices@, name@);
        }
        None
    }

    /// The counters of the device named `name`, if it is known.
    pub fn get(&self, name: &str) -> (r: Option<NetworkDevice>)
        ensures
            match r {
                Some(d) => spec_find_device(self.devices@, name@) >= 0 && d == self.devices@[
                    spec_find_device(self.devices@, name@)
                ].1,
                None => spec_find_device(self.devices@, name@) < 0,
            },
    {
        match self.find(name) {
            Some(i) => Some(self.devices[i].1),
            None => None,
        }
    }

    /// Record a device's counters: a known name has its entry replaced, a
    /// new name is appended. Names stay unique.
    pub fn insert_device(&mut self, name: String, dev: NetworkDevice)
        requires
            old(self).wf(),
        ensures
            final(self).wf(),
            final(self).devices@ == if spec_find_device(old(self).devices@, name@) < 0 {
                old(self).devices@.push((name, dev))
            } else {
                old(self).devices@.update(
                    spec_find_device(old(self).devices@, name@),
                    (name, dev),
                )
            },
    {
        let ghost devs0 = self.devices@;
        match self.find(name.as_str()) {
            Some(i) => {
                proof {
                    lemma_find_device(devs0, name@);
                }
                self.devices[i] = (name, dev);
                proof {
                    assert forall|a: int, b: int|
                        #![trigger self.devices@[a], self.devices@[b]]
                        0 <= a < b < self.devices@.len() implies self.devices@[a].0@
                        != self.devices@[b].0@ by {
                        if a != i as int && b != i as int {
                            assert(self.devices@[a] == devs0[a]);
                            assert(self.devices@[b] == devs0[b]);
                        } else if a == i as int {
                            assert(self.devices@[b] == devs0[b]);
                            assert(devs0[i as int].0@ == name@);
                        } else {
                            assert(self.devices@[a] == devs0[a]);
                            assert(devs0[i as int].0@ == name@);
                        }
                    }
                }
            },
            None => {
                proof {
                    lemma_find_device(devs0, name@);
                }
                self.devices.push((name, dev));
                proof {
                    assert forall|a: int, b: int|
                        #![trigger self.devices@[a], self.devices@[b]]
                        0 <= a < b < self.devices@.len() implies self.devices@[a].0@
                        != self.devices@[b].0@ by {
                        if b < devs0.len() {
                            assert(self.devices@[a] == devs0[a]);
                            assert(self.devices@[b] == devs0[b]);
                        } else {
                            assert(self.devices@[a] == devs0[a]);
                        }
                    }
                }
            },
        }
    }
}

} // verus!
