//! Network interfaces, from what `/sys/class/net` holds for each.
use vstd::prelude::*;
use crate::text::{trim, to_chars, from_chars, trim_chars, chars_eq};
use crate::num::{parse_unsigned, parse_unsigned_exec};
use crate::models::{NetworkInterface, NetView, nets_of};

verus! {

/// What sysfs holds for one interface: its name, the raw contents of `address` (empty where
/// unreadable), whether it has a `device` link, the name that `device/driver` links to (empty
/// where there is no such link), and the raw contents of `speed` and `duplex` where they were
/// readable.
pub struct NetEntry {
    pub name: String,
    pub address: String,
    pub has_device: bool,
    pub driver: String,
    pub speed: Option<String>,
    pub duplex: Option<String>,
}

/// The interface that a sysfs entry describes: the address trimmed, virtual without a device,
/// the driver read through the device (so none without one), the speed in Mbit/s (0 where
/// unreadable or not a `u64`), the duplex trimmed or `unknown`.
pub open spec fn interface_of(e: NetEntry) -> NetView {
    NetView {
        name: e.name@,
        mac_address: trim(e.address@),
        driver: if e.has_device {
            e.driver@
        } else {
            Seq::empty()
        },
        speed_mbps: match e.speed {
            Some(s) => match parse_unsigned(trim(s@), 10, u64::MAX as nat) {
                Some(v) => v as u64,
                None => 0,
            },
            None => 0,
        },
        duplex: match e.duplex {
            Some(d) => trim(d@),
            None => "unknown"@,
        },
        is_virtual: !e.has_device,
    }
}

/// The interfaces of the entries other than the loopback `lo`, in order.
pub open spec fn interfaces(es: Seq<NetEntry>) -> Seq<NetView>
    decreases es.len(),
{
    if es.len() == 0 {
        Seq::empty()
    } else {
        let init = interfaces(es.drop_last());
        if es.last().name@ == "lo"@ {
            init
        } else {
            init.push(interface_of(es.last()))
        }
    }
}

/// The interfaces of two runs of entries are those of the first, then those of the second.
pub proof fn lemma_interfaces_append(a: Seq<NetEntry>, b: Seq<NetEntry>)
    ensures
        interfaces(a + b) == interfaces(a) + interfaces(b),
    decreases b.len(),
{
    if b.len() == 0 {
        assert(a + b == a);
        assert(interfaces(a) + interfaces(b) == interfaces(a));
    } else {
        lemma_interfaces_append(a, b.drop_last());
        assert((a + b).drop_last() == a + b.drop_last());
        assert((a + b).last() == b.last());
        assert((interfaces(a) + interfaces(b.drop_last())).push(interfaces(b).last()) == interfaces(a) + interfaces(b.drop_last()).push(interfaces(b).last()));
    }
}

/// The loopback interface never appears, and every other entry does, in order.
pub proof fn lemma_no_loopback(es: Seq<NetEntry>)
    ensures
        forall|i: int| 0 <= i < interfaces(es).len() ==> #[trigger] interfaces(es)[i].name != "lo"@,
        interfaces(es).len() == es.len() - lo_count(es),
    decreases es.len(),
{
    if es.len() > 0 {
        lemma_no_loopback(es.drop_last());
        let init = interfaces(es.drop_last());
        assert forall|i: int| 0 <= i < interfaces(es).len() implies #[trigger] interfaces(es)[i].name
            != "lo"@ by {
            if i < init.len() {
                assert(interfaces(es)[i] == init[i]);
            }
        }
    }
}

/// Every interface listed is named after one of the entries.
proof fn lemma_interface_names(es: Seq<NetEntry>)
    ensures
        forall|i: int|
            0 <= i < interfaces(es).len() ==> exists|k: int|
                0 <= k < es.len() && #[trigger] interfaces(es)[i].name == es[k].name@,
    decreases es.len(),
{
    if es.len() > 0 {
        let init = interfaces(es.drop_last());
        lemma_interface_names(es.drop_last());
        assert forall|i: int| 0 <= i < interfaces(es).len() implies exists|k: int|
            0 <= k < es.len() && #[trigger] interfaces(es)[i].name == es[k].name@ by {
            if i < init.len() {
                assert(interfaces(es)[i] == init[i]);
                let k = choose|k: int| 0 <= k < es.len() - 1 && init[i].name == es.drop_last()[k].name@;
                assert(es.drop_last()[k] == es[k]);
            } else {
                assert(interfaces(es)[i].name == es[es.len() - 1].name@);
            }
        }
    }
}

/// Where no two entries share a name, no two interfaces listed do.
pub proof fn lemma_distinct_names(es: Seq<NetEntry>)
    requires
        forall|a: int, b: int| 0 <= a < b < es.len() ==> es[a].name@ != es[b].name@,
    ensures
        forall|a: int, b: int|
            0 <= a < b < interfaces(es).len() ==> interfaces(es)[a].name != interfaces(es)[b].name,
    decreases es.len(),
{
    if es.len() > 0 {
        let d = es.drop_last();
        let init = interfaces(d);
        assert forall|a: int, b: int| 0 <= a < b < d.len() implies d[a].name@ != d[b].name@ by {
            assert(d[a] == es[a] && d[b] == es[b]);
        }
        lemma_distinct_names(d);
        lemma_interface_names(d);
        assert forall|a: int, b: int| 0 <= a < b < interfaces(es).len() implies interfaces(
            es,
        )[a].name != interfaces(es)[b].name by {
            assert(interfaces(es)[a] == init[a]);
            if b < init.len() {
                assert(interfaces(es)[b] == init[b]);
            } else {
                let k = choose|k: int| 0 <= k < d.len() && #[trigger] init[a].name == d[k].name@;
                assert(d[k] == es[k]);
                assert(interfaces(es)[b].name == es[es.len() - 1].name@);
            }
        }
    }
}

/// A virtual interface, one without a device, has no driver.
pub proof fn lemma_virtual_no_driver(es: Seq<NetEntry>)
    ensures
        forall|i: int|
            0 <= i < interfaces(es).len() && #[trigger] interfaces(es)[i].is_virtual
                ==> interfaces(es)[i].driver.len() == 0,
    decreases es.len(),
{
    if es.len() > 0 {
        lemma_virtual_no_driver(es.drop_last());
        let init = interfaces(es.drop_last());
        assert forall|i: int|
            0 <= i < interfaces(es).len() && #[trigger] interfaces(es)[i].is_virtual implies interfaces(
            es,
        )[i].driver.len() == 0 by {
            if i < init.len() {
                assert(interfaces(es)[i] == init[i]);
            }
        }
    }
}

/// The number of entries named `lo`.
pub open spec fn lo_count(es: Seq<NetEntry>) -> int
    decreases es.len(),
{
    if es.len() == 0 {
        0
    } else {
        lo_count(es.drop_last()) + if es.last().name@ == "lo"@ {
            1int
        } else {
            0int
        }
    }
}

fn interface_exec(e: &NetEntry) -> (res: NetworkInterface)
    ensures
        res@ == interface_of(*e),
{
    let speed: u64 = match &e.speed {
        Some(s) => match parse_unsigned_exec(&trim_chars(&to_chars(s.as_str())), 10, u64::MAX) {
            Some(v) => v,
            None => 0,
        },
        None => 0,
    };
    let duplex = match &e.duplex {
        Some(d) => from_chars(&trim_chars(&to_chars(d.as_str()))),
        None => String::from_str("unknown"),
    };
    NetworkInterface {
        name: from_chars(&to_chars(e.name.as_str())),
        mac_address: from_chars(&trim_chars(&to_chars(e.address.as_str()))),
        driver: if e.has_device {
            from_chars(&to_chars(e.driver.as_str()))
        } else {
            String::new()
        },
        speed_mbps: speed,
        duplex: duplex,
        is_virtual: !e.has_device,
    }
}

/// The network interfaces that sysfs lists, the loopback `lo` left out.
pub fn collect_network(entries: &Vec<NetEntry>) -> (res: Vec<NetworkInterface>)
    ensures
        nets_of(res@) == interfaces(entries@),
{
    let mut res: Vec<NetworkInterface> = Vec::new();
    let n = entries.len();
    let lo = to_chars("lo");
    assert(entries@.take(0) == Seq::<NetEntry>::empty());
    assert(nets_of(res@) =~= Seq::<NetView>::empty());
    for i in 0..n
        invariant
            n == entries@.len(),
            lo@ == "lo"@,
            nets_of(res@) == interfaces(entries@.take(i as int)),
    {
        assert(entries@.take(i + 1).drop_last() == entries@.take(i as int));
        assert(entries@.take(i + 1).last() == entries@[i as int]);
        let e = &entries[i];
        if !chars_eq(&to_chars(e.name.as_str()), &lo) {
            let d = interface_exec(e);
            let ghost before = nets_of(res@);
            let ghost dv = d@;
            res.push(d);
            assert(nets_of(res@) =~= before.push(dv));
        }
    }
    assert(entries@.take(n as int) == entries@);
    res
}

} // verus!
