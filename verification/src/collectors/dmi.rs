//! Firmware identity, processor and memory, read from DMI attributes, `/proc/cpuinfo`,
//! `/proc/meminfo` and what `dmidecode -t memory` prints.
use vstd::prelude::*;
use crate::text::{
    seqs_of, trim, lines, words, starts_with, contains, nth_piece, colon_value, to_chars,
    from_chars, trim_chars, lines_chars, words_chars, split_chars, starts_with_str,
    contains_str, chars_eq, copy_chars, second_piece_chars, slice_chars,
};
use crate::num::{parse_unsigned, parse_unsigned_exec};
use crate::sizes::{size_text, format_size_kb};
use crate::models::{
    SystemInfo, BiosInfo, CpuInfo, CpuView, MemoryInfo, MemoryDimm, DimmView, dimms_of,
    strings_of,
};

verus! {

/// The system's identity from the raw contents of the DMI attributes `sys_vendor`,
/// `product_name`, `product_version`, `product_serial`, `product_sku`, `chassis_asset_tag`,
/// `product_uuid` and `product_family` (empty where unreadable), each trimmed.
pub fn collect_system_info(
    sys_vendor: &str,
    product_name: &str,
    product_version: &str,
    product_serial: &str,
    product_sku: &str,
    chassis_asset_tag: &str,
    product_uuid: &str,
    product_family: &str,
) -> (res: SystemInfo)
    ensures
        res.manufacturer@ == trim(sys_vendor@),
        res.product_name@ == trim(product_name@),
        res.version@ == trim(product_version@),
        res.serial_number@ == trim(product_serial@),
        res.sku@ == trim(product_sku@),
        res.asset_tag@ == trim(chassis_asset_tag@),
        res.uuid@ == trim(product_uuid@),
        res.family@ == trim(product_family@),
{
    SystemInfo {
        manufacturer: trimmed(sys_vendor),
        product_name: trimmed(product_name),
        version: trimmed(product_version),
        serial_number: trimmed(product_serial),
        sku: trimmed(product_sku),
        asset_tag: trimmed(chassis_asset_tag),
        uuid: trimmed(product_uuid),
        family: trimmed(product_family),
    }
}

/// `s.trim().to_string()`.
pub fn trimmed(s: &str) -> (res: String)
    ensures
        res@ == trim(s@),
{
    from_chars(&trim_chars(&to_chars(s)))
}

/// The BIOS identity from the raw contents of the DMI attributes `bios_vendor`,
/// `bios_version`, `bios_date` and `bios_release` (empty where unreadable), each trimmed.
pub fn collect_bios(
    bios_vendor: &str,
    bios_version: &str,
    bios_date: &str,
    bios_release: &str,
) -> (res: BiosInfo)
    ensures
        res.vendor@ == trim(bios_vendor@),
        res.version@ == trim(bios_version@),
        res.date@ == trim(bios_date@),
        res.release@ == trim(bios_release@),
{
    BiosInfo {
        vendor: trimmed(bios_vendor),
        version: trimmed(bios_version),
        date: trimmed(bios_date),
        release: trimmed(bios_release),
    }
}

/// The state of a pass over `/proc/cpuinfo`.
pub struct CpuScan {
    pub vendor_id: Seq<char>,
    pub model_name: Seq<char>,
    pub seen_model: bool,
    pub flags: Seq<char>,
}

/// One line: the last `vendor_id`, the first `model name`, the last `flags` or `Features`.
pub open spec fn cpu_step(st: CpuScan, l: Seq<char>) -> CpuScan {
    let st1 = if starts_with(l, "vendor_id"@) {
        CpuScan { vendor_id: colon_value(l), ..st }
    } else {
        st
    };
    let st2 = if starts_with(l, "model name"@) && !st1.seen_model {
        CpuScan { model_name: colon_value(l), seen_model: true, ..st1 }
    } else {
        st1
    };
    if starts_with(l, "flags"@) || starts_with(l, "Features"@) {
        CpuScan { flags: colon_value(l), ..st2 }
    } else {
        st2
    }
}

pub open spec fn cpu_scan(ls: Seq<Seq<char>>) -> CpuScan
    decreases ls.len(),
{
    if ls.len() == 0 {
        CpuScan {
            vendor_id: Seq::empty(),
            model_name: Seq::empty(),
            seen_model: false,
            flags: Seq::empty(),
        }
    } else {
        cpu_step(cpu_scan(ls.drop_last()), ls.last())
    }
}

/// The number of lines that start with `p`.
pub open spec fn count_prefixed(ls: Seq<Seq<char>>, p: Seq<char>) -> nat
    decreases ls.len(),
{
    if ls.len() == 0 {
        0
    } else {
        count_prefixed(ls.drop_last(), p) + if starts_with(ls.last(), p) {
            1nat
        } else {
            0nat
        }
    }
}

/// The first line that starts with `p`.
pub open spec fn first_prefixed(ls: Seq<Seq<char>>, p: Seq<char>) -> Option<Seq<char>>
    decreases ls.len(),
{
    if ls.len() == 0 {
        None
    } else if starts_with(ls[0], p) {
        Some(ls[0])
    } else {
        first_prefixed(ls.drop_first(), p)
    }
}

/// The thread count: the number after the colon of the first `siblings` line, or `cores`
/// where there is no such line or it does not read as a `usize`.
pub open spec fn threads_of(ls: Seq<Seq<char>>, cores: nat) -> nat {
    match first_prefixed(ls, "siblings"@) {
        None => cores,
        Some(l) => match nth_piece(l, ':', 1) {
            None => cores,
            Some(v) => match parse_unsigned(trim(v), 10, usize::MAX as nat) {
                Some(x) => x,
                None => cores,
            },
        },
    }
}

/// The values of the `physical id` lines (the text after the colon, trimmed, or `0`).
pub open spec fn physical_ids(ls: Seq<Seq<char>>) -> Seq<Seq<char>>
    decreases ls.len(),
{
    if ls.len() == 0 {
        Seq::empty()
    } else {
        let init = physical_ids(ls.drop_last());
        let l = ls.last();
        if starts_with(l, "physical id"@) {
            init.push(
                trim(
                    match nth_piece(l, ':', 1) {
                        Some(p) => p,
                        None => "0"@,
                    },
                ),
            )
        } else {
            init
        }
    }
}

/// The `physical id` values of two runs of lines are those of the first, then those of the second.
pub proof fn lemma_physical_ids_append(a: Seq<Seq<char>>, b: Seq<Seq<char>>)
    ensures
        physical_ids(a + b) == physical_ids(a) + physical_ids(b),
    decreases b.len(),
{
    if b.len() == 0 {
        assert(a + b == a);
        assert(physical_ids(a) + physical_ids(b) == physical_ids(a));
    } else {
        lemma_physical_ids_append(a, b.drop_last());
        assert((a + b).drop_last() == a + b.drop_last());
        assert((a + b).last() == b.last());
        assert((physical_ids(a) + physical_ids(b.drop_last())).push(physical_ids(b).last()) == physical_ids(a) + physical_ids(b.drop_last()).push(physical_ids(b).last()));
    }
}

/// The distinct values of `s`, each once, in the order of first occurrence.
pub open spec fn distinct(s: Seq<Seq<char>>) -> Seq<Seq<char>>
    decreases s.len(),
{
    if s.len() == 0 {
        s
    } else {
        let init = distinct(s.drop_last());
        if init.contains(s.last()) {
            init
        } else {
            init.push(s.last())
        }
    }
}

/// `distinct(s)` holds each value of `s` exactly once.
proof fn lemma_distinct(s: Seq<Seq<char>>)
    ensures
        distinct(s).no_duplicates(),
        distinct(s).to_set() == s.to_set(),
    decreases s.len(),
{
    broadcast use vstd::seq_lib::group_seq_properties;
    broadcast use vstd::set::group_set_axioms;

    if s.len() > 0 {
        let init = distinct(s.drop_last());
        lemma_distinct(s.drop_last());
        s.drop_last().lemma_push_to_set_commute(s.last());
        assert(s.drop_last().push(s.last()) == s);
        if init.contains(s.last()) {
            assert(init.to_set().contains(s.last()));
            assert(s.to_set() =~= init.to_set());
        } else {
            init.lemma_push_to_set_commute(s.last());
            assert forall|a: int, b: int| 0 <= a < b < init.push(s.last()).len() implies init.push(
                s.last(),
            )[a] != init.push(s.last())[b] by {
                if b == init.len() {
                    assert(init.push(s.last())[a] == init[a]);
                }
            }
        }
    }
}

/// The number of distinct values of `s` is the size of the set of its values.
pub proof fn lemma_distinct_len(s: Seq<Seq<char>>)
    ensures
        distinct(s).len() == s.to_set().len(),
{
    lemma_distinct(s);
    distinct(s).unique_seq_to_set();
}

/// The sockets of a `/proc/cpuinfo` text: the number of distinct `physical id` values, each
/// counted once wherever and however often it occurs, and at least 1.
pub open spec fn socket_count(text: Seq<char>) -> nat {
    let n = physical_ids(lines(text)).to_set().len();
    if n >= 1 {
        n
    } else {
        1
    }
}

/// The socket count is the number of distinct `physical id` values (at least 1): it depends
/// only on the set of values, not on their order or repetition. (The one limit is the
/// machine's: the `physical id` lines of a text in memory are at most `usize::MAX`.)
pub proof fn lemma_sockets_are_distinct_ids(text: Seq<char>, arch: Seq<char>)
    requires
        physical_ids(lines(text)).len() <= usize::MAX,
    ensures
        cpu_spec(Some(text), arch).sockets as nat == socket_count(text),
{
    lemma_distinct_len(physical_ids(lines(text)));
    lemma_ids_fit(physical_ids(lines(text)));
}

proof fn lemma_ids_fit(s: Seq<Seq<char>>)
    ensures
        distinct(s).len() <= s.len(),
{
    lemma_distinct_len(s);
    s.lemma_cardinality_of_set();
}

/// The processor summary that `/proc/cpuinfo` gives (where it was read) on architecture `arch`.
pub open spec fn cpu_spec(cpuinfo: Option<Seq<char>>, arch: Seq<char>) -> CpuView {
    match cpuinfo {
        None => CpuView {
            vendor_id: Seq::empty(),
            model_name: Seq::empty(),
            cores: 0,
            threads: 0,
            sockets: 0,
            architecture: arch,
            flags: Seq::empty(),
            vulnerabilities: Seq::empty(),
        },
        Some(text) => {
            let ls = lines(text);
            let st = cpu_scan(ls);
            let cores = count_prefixed(ls, "processor"@);
            let ids = distinct(physical_ids(ls)).len();
            CpuView {
                vendor_id: st.vendor_id,
                model_name: st.model_name,
                cores: cores as usize,
                threads: threads_of(ls, cores) as usize,
                sockets: if ids >= 1 {
                    ids as usize
                } else {
                    1
                },
                architecture: arch,
                flags: words(st.flags),
                vulnerabilities: Seq::empty(),
            }
        },
    }
}

fn strings_from(v: &Vec<Vec<char>>) -> (res: Vec<String>)
    ensures
        strings_of(res@) == seqs_of(v@),
{
    let mut res: Vec<String> = Vec::new();
    let n = v.len();
    for i in 0..n
        invariant
            n == v@.len(),
            res@.len() == i,
            forall|j: int| 0 <= j < i ==> #[trigger] res@[j]@ == v@[j]@,
    {
        res.push(from_chars(&v[i]));
    }
    assert(strings_of(res@) =~= seqs_of(v@));
    res
}

/// The text after the first colon of a line, if there is a colon.
fn nth_piece_one(l: &Vec<char>) -> (res: Option<Vec<char>>)
    ensures
        match res {
            Some(p) => nth_piece(l@, ':', 1) == Some(p@),
            None => nth_piece(l@, ':', 1) is None,
        },
{
    let ps = split_chars(l, ':');
    if ps.len() > 1 {
        assert(ps@[1]@ == seqs_of(ps@)[1]);
        Some(copy_chars(&ps[1]))
    } else {
        None
    }
}

fn threads_exec(ls: &Vec<Vec<char>>, cores: usize) -> (res: usize)
    ensures
        res as nat == threads_of(seqs_of(ls@), cores as nat),
{
    let ghost lv = seqs_of(ls@);
    let n = ls.len();
    assert(lv.skip(0) == lv);
    for i in 0..n
        invariant
            n == ls@.len(),
            lv == seqs_of(ls@),
            first_prefixed(lv, "siblings"@) == first_prefixed(lv.skip(i as int), "siblings"@),
    {
        assert(lv.skip(i as int)[0] == ls@[i as int]@);
        assert(lv.skip(i as int).drop_first() == lv.skip(i + 1));
        if starts_with_str(&ls[i], "siblings") {
            match nth_piece_one(&ls[i]) {
                None => {
                    return cores;
                },
                Some(v) => {
                    let t = trim_chars(&v);
                    match parse_unsigned_exec(&t, 10, usize::MAX as u64) {
                        Some(x) => {
                            return x as usize;
                        },
                        None => {
                            return cores;
                        },
                    }
                },
            }
        }
    }
    assert(lv.skip(n as int).len() == 0);
    cores
}

/// The processor summary from the contents of `/proc/cpuinfo` (where it was read) and the
/// architecture the program was built for.
pub fn collect_cpu(cpuinfo: Option<&str>, arch: &str) -> (res: CpuInfo)
    ensures
        res@ == cpu_spec(
            match cpuinfo {
                Some(t) => Some(t@),
                None => None,
            },
            arch@,
        ),
        cpuinfo is Some ==> res.sockets >= 1,
        cpuinfo matches Some(t) ==> res.sockets as nat == socket_count(t@),
{
    let text = match cpuinfo {
        None => {
            let res = CpuInfo {
                vendor_id: String::new(),
                model_name: String::new(),
                cores: 0,
                threads: 0,
                sockets: 0,
                architecture: String::from_str(arch),
                flags: Vec::new(),
                vulnerabilities: Vec::new(),
            };
            assert(strings_of(res.flags@) =~= Seq::<Seq<char>>::empty());
            assert(strings_of(res.vulnerabilities@) =~= Seq::<Seq<char>>::empty());
            return res;
        },
        Some(t) => t,
    };
    let chars = to_chars(text);
    let ls = lines_chars(&chars);
    let ghost lv = seqs_of(ls@);
    let n = ls.len();
    let mut vendor_id: Vec<char> = Vec::new();
    let mut model_name: Vec<char> = Vec::new();
    let mut seen_model = false;
    let mut flags: Vec<char> = Vec::new();
    let mut cores: usize = 0;
    let mut ids: Vec<Vec<char>> = Vec::new();
    let mut uniq: Vec<Vec<char>> = Vec::new();
    assert(lv.take(0) == Seq::<Seq<char>>::empty());
    for i in 0..n
        invariant
            n == ls@.len(),
            lv == seqs_of(ls@),
            lv == lines(text@),
            cpu_scan(lv.take(i as int)) == (CpuScan {
                vendor_id: vendor_id@,
                model_name: model_name@,
                seen_model: seen_model,
                flags: flags@,
            }),
            cores as nat == count_prefixed(lv.take(i as int), "processor"@),
            cores <= i,
            seqs_of(ids@) == physical_ids(lv.take(i as int)),
            seqs_of(uniq@) == distinct(physical_ids(lv.take(i as int))),
    {
        assert(lv.take(i + 1).drop_last() == lv.take(i as int));
        assert(lv.take(i + 1).last() == ls@[i as int]@);
        let l = &ls[i];
        if starts_with_str(l, "vendor_id") {
            vendor_id = trim_chars(&second_piece_chars(l, ':'));
        }
        if starts_with_str(l, "model name") && !seen_model {
            model_name = trim_chars(&second_piece_chars(l, ':'));
            seen_model = true;
        }
        if starts_with_str(l, "flags") || starts_with_str(l, "Features") {
            flags = trim_chars(&second_piece_chars(l, ':'));
        }
        if starts_with_str(l, "processor") {
            cores = cores + 1;
        }
        if starts_with_str(l, "physical id") {
            let raw = match nth_piece_one(l) {
                Some(p) => p,
                None => to_chars("0"),
            };
            let v = trim_chars(&raw);
            let ghost before_ids = seqs_of(ids@);
            let ghost before_uniq = seqs_of(uniq@);
            let mut found = false;
            let k = uniq.len();
            for j in 0..k
                invariant
                    k == uniq@.len(),
                    before_uniq == seqs_of(uniq@),
                    found == exists|m: int| 0 <= m < j && uniq@[m]@ == v@,
            {
                if chars_eq(&uniq[j], &v) {
                    found = true;
                }
            }
            proof {
                if found {
                    let m = choose|m: int| 0 <= m < k && uniq@[m]@ == v@;
                    assert(before_uniq[m] == v@);
                    assert(before_uniq.contains(v@));
                } else {
                    assert forall|m: int| 0 <= m < before_uniq.len() implies before_uniq[m]
                        != v@ by {
                        assert(before_uniq[m] == uniq@[m]@);
                    }
                }
            }
            if !found {
                let v2 = copy_chars(&v);
                uniq.push(v2);
                assert(seqs_of(uniq@) =~= before_uniq.push(v@));
            }
            let ghost vv = v@;
            ids.push(v);
            assert(seqs_of(ids@) =~= before_ids.push(vv));
            assert(before_ids.push(vv).drop_last() == before_ids);
            assert(physical_ids(lv.take(i + 1)) == before_ids.push(vv));
        }
        assert(cpu_scan(lv.take(i + 1)) == cpu_step(
            cpu_scan(lv.take(i as int)),
            lv[i as int],
        ));
    }
    assert(lv.take(n as int) == lv);
    let threads = threads_exec(&ls, cores);
    let u = uniq.len();
    let word_list = words_chars(&flags);
    let res = CpuInfo {
        vendor_id: from_chars(&vendor_id),
        model_name: from_chars(&model_name),
        cores: cores,
        threads: threads,
        sockets: if u >= 1 {
            u
        } else {
            1
        },
        architecture: String::from_str(arch),
        flags: strings_from(&word_list),
        vulnerabilities: Vec::new(),
    };
    assert(strings_of(res.vulnerabilities@) =~= Seq::<Seq<char>>::empty());
    let n_ids: usize = ids.len();
    proof {
        assert(ids@.len() == n_ids);
        assert(seqs_of(ids@).len() == ids@.len());
        assert(physical_ids(lines(text@)).len() == ids@.len());
        lemma_sockets_are_distinct_ids(text@, arch@);
    }
    res
}


/// The first word of `s`, or `0`.
pub open spec fn first_word_or_zero(s: Seq<char>) -> Seq<char> {
    if words(s).len() > 0 {
        words(s)[0]
    } else {
        "0"@
    }
}

/// A number read as an unsigned integer no larger than `max`, or 0.
pub open spec fn number_or_zero(s: Seq<char>, max: nat) -> nat {
    match parse_unsigned(s, 10, max) {
        Some(v) => v,
        None => 0,
    }
}

/// The size in KB of a `Size:` value: its first number times 1024 for `MB`, times 1024 * 1024
/// for `GB` (in `u64` arithmetic that wraps), `old` otherwise.
pub open spec fn dimm_size_kb(s: Seq<char>, old: u64) -> u64 {
    let x = number_or_zero(first_word_or_zero(s), u64::MAX as nat);
    if contains(s, "MB"@) {
        ((x * 1024) % 0x1_0000_0000_0000_0000) as u64
    } else if contains(s, "GB"@) {
        ((x * 1048576) % 0x1_0000_0000_0000_0000) as u64
    } else {
        old
    }
}

/// `t` after the label `p`, trimmed.
pub open spec fn label_value(t: Seq<char>, p: Seq<char>) -> Seq<char> {
    trim(t.skip(p.len() as int))
}

/// The state of a pass over `dmidecode -t memory` output.
pub struct DimmScan {
    pub dimms: Seq<DimmView>,
    pub cur: DimmView,
}

/// One trimmed line: `Memory Device` closes the current module (kept when it has a
/// locator) and opens another; `Label:` lines fill in the current one.
pub open spec fn dimm_step(st: DimmScan, t: Seq<char>) -> DimmScan {
    let c = st.cur;
    if starts_with(t, "Memory Device"@) {
        DimmScan {
            dimms: if c.locator.len() > 0 {
                st.dimms.push(c)
            } else {
                st.dimms
            },
            cur: DimmView::empty(),
        }
    } else if starts_with(t, "Locator:"@) {
        DimmScan { cur: DimmView { locator: label_value(t, "Locator:"@), ..c }, ..st }
    } else if starts_with(t, "Size:"@) {
        let v = label_value(t, "Size:"@);
        DimmScan { cur: DimmView { size_human: v, size_kb: dimm_size_kb(v, c.size_kb), ..c }, ..st }
    } else if starts_with(t, "Speed:"@) {
        DimmScan {
            cur: DimmView {
                speed_mhz: number_or_zero(
                    first_word_or_zero(label_value(t, "Speed:"@)),
                    u32::MAX as nat,
                ) as u32,
                ..c
            },
            ..st
        }
    } else if starts_with(t, "Manufacturer:"@) {
        DimmScan { cur: DimmView { manufacturer: label_value(t, "Manufacturer:"@), ..c }, ..st }
    } else if starts_with(t, "Part Number:"@) {
        DimmScan { cur: DimmView { part_number: label_value(t, "Part Number:"@), ..c }, ..st }
    } else if starts_with(t, "Serial Number:"@) {
        DimmScan { cur: DimmView { serial_number: label_value(t, "Serial Number:"@), ..c }, ..st }
    } else if starts_with(t, "Type:"@) {
        DimmScan { cur: DimmView { memory_type: label_value(t, "Type:"@), ..c }, ..st }
    } else if starts_with(t, "Rank:"@) {
        DimmScan { cur: DimmView { rank: label_value(t, "Rank:"@), ..c }, ..st }
    } else {
        st
    }
}

pub open spec fn dimm_scan(ls: Seq<Seq<char>>) -> DimmScan
    decreases ls.len(),
{
    if ls.len() == 0 {
        DimmScan { dimms: Seq::empty(), cur: DimmView::empty() }
    } else {
        dimm_step(dimm_scan(ls.drop_last()), trim(ls.last()))
    }
}

/// The memory modules that lines of `dmidecode -t memory` output list: each one that got a
/// locator, in order.
pub open spec fn dimms_in(ls: Seq<Seq<char>>) -> Seq<DimmView> {
    let st = dimm_scan(ls);
    if st.cur.locator.len() > 0 {
        st.dimms.push(st.cur)
    } else {
        st.dimms
    }
}

/// The memory modules that `dmidecode -t memory` output lists: each one that got a locator.
pub open spec fn dmidecode_dimms(text: Seq<char>) -> Seq<DimmView> {
    dimms_in(lines(text))
}

proof fn lemma_dimm_scan_split(a: Seq<Seq<char>>, b: Seq<Seq<char>>)
    requires
        b.len() >= 1,
        starts_with(trim(b[0]), "Memory Device"@),
    ensures
        dimm_scan(a + b) == (DimmScan { dimms: dimms_in(a) + dimm_scan(b).dimms, cur: dimm_scan(b).cur }),
    decreases b.len(),
{
    if b.len() == 1 {
        assert((a + b).drop_last() == a);
        assert((a + b).last() == b[0]);
        assert(b.drop_last() == Seq::<Seq<char>>::empty());
        assert(dimm_scan(b.drop_last()) == DimmScan { dimms: Seq::empty(), cur: DimmView::empty() });
        assert(b.last() == b[0]);
        assert(DimmView::empty().locator.len() == 0);
        assert(dimms_in(a) + Seq::<DimmView>::empty() == dimms_in(a));
    } else {
        lemma_dimm_scan_split(a, b.drop_last());
        assert((a + b).drop_last() == a + b.drop_last());
        assert((a + b).last() == b.last());
        let d = dimms_in(a);
        let e = dimm_scan(b.drop_last());
        let t = trim(b.last());
        assert(dimm_scan(a + b) == dimm_step(DimmScan { dimms: d + e.dimms, cur: e.cur }, t));
        assert(dimm_scan(b) == dimm_step(e, t));
        assert((d + e.dimms).push(e.cur) == d + e.dimms.push(e.cur));
    }
}

/// Each module is read from its own lines alone: the modules of two runs of lines, the second
/// starting with a `Memory Device` line, are those of the first, then those of the second.
pub proof fn lemma_dimms_append(a: Seq<Seq<char>>, b: Seq<Seq<char>>)
    requires
        b.len() >= 1,
        starts_with(trim(b[0]), "Memory Device"@),
    ensures
        dimms_in(a + b) == dimms_in(a) + dimms_in(b),
{
    lemma_dimm_scan_split(a, b);
    let d = dimms_in(a);
    let st = dimm_scan(b);
    assert((d + st.dimms).push(st.cur) == d + st.dimms.push(st.cur));
}

/// The `MemTotal:` value: of the last such line, its second word read as a `u64` (0 where it is
/// not one); a line with fewer words leaves the value as it was.
pub open spec fn mem_total(ls: Seq<Seq<char>>) -> u64
    decreases ls.len(),
{
    if ls.len() == 0 {
        0
    } else {
        let old = mem_total(ls.drop_last());
        let l = ls.last();
        if starts_with(l, "MemTotal:"@) && words(l).len() > 1 {
            number_or_zero(words(l)[1], u64::MAX as nat) as u64
        } else {
            old
        }
    }
}

proof fn lemma_dimm_scan(ls: Seq<Seq<char>>)
    ensures
        forall|i: int|
            0 <= i < dimm_scan(ls).dimms.len() ==> #[trigger] dimm_scan(ls).dimms[i].locator.len()
                > 0,
    decreases ls.len(),
{
    if ls.len() > 0 {
        lemma_dimm_scan(ls.drop_last());
        let init = dimm_scan(ls.drop_last()).dimms;
        assert forall|i: int| 0 <= i < dimm_scan(ls).dimms.len() implies #[trigger] dimm_scan(
            ls,
        ).dimms[i].locator.len() > 0 by {
            if i < init.len() {
                assert(dimm_scan(ls).dimms[i] == init[i]);
            }
        }
    }
}

/// Every memory module that `dmidecode -t memory` output gives has a locator.
pub proof fn lemma_dimms_have_locator(text: Seq<char>)
    ensures
        forall|i: int|
            0 <= i < dmidecode_dimms(text).len() ==> #[trigger] dmidecode_dimms(text)[i].locator.len()
                > 0,
{
    lemma_dimm_scan(lines(text));
    let st = dimm_scan(lines(text));
    assert forall|i: int| 0 <= i < dmidecode_dimms(text).len() implies #[trigger] dmidecode_dimms(
        text,
    )[i].locator.len() > 0 by {
        if i < st.dimms.len() {
            assert(dmidecode_dimms(text)[i] == st.dimms[i]);
        }
    }
}

/// `v` is empty, or it is what follows `label` on some line of `ls` that, trimmed, starts with
/// `label`, itself trimmed.
pub open spec fn from_label_line(ls: Seq<Seq<char>>, label: Seq<char>, v: Seq<char>) -> bool {
    v.len() == 0 || exists|i: int|
        0 <= i < ls.len() && starts_with(trim(#[trigger] ls[i]), label) && trim(
            trim(ls[i]).skip(label.len() as int),
        ) == v
}

/// Each text field of a module comes from a line with that field's own label.
pub open spec fn dimm_from_lines(ls: Seq<Seq<char>>, d: DimmView) -> bool {
    &&& from_label_line(ls, "Locator:"@, d.locator)
    &&& from_label_line(ls, "Size:"@, d.size_human)
    &&& from_label_line(ls, "Manufacturer:"@, d.manufacturer)
    &&& from_label_line(ls, "Part Number:"@, d.part_number)
    &&& from_label_line(ls, "Serial Number:"@, d.serial_number)
    &&& from_label_line(ls, "Type:"@, d.memory_type)
    &&& from_label_line(ls, "Rank:"@, d.rank)
}

proof fn lemma_label_mono(ls: Seq<Seq<char>>, label: Seq<char>, v: Seq<char>)
    requires
        ls.len() > 0,
        from_label_line(ls.drop_last(), label, v),
    ensures
        from_label_line(ls, label, v),
{
    if v.len() > 0 {
        let i = choose|i: int|
            0 <= i < ls.drop_last().len() && starts_with(trim(#[trigger] ls.drop_last()[i]), label)
                && trim(trim(ls.drop_last()[i]).skip(label.len() as int)) == v;
        assert(ls.drop_last()[i] == ls[i]);
    }
}

proof fn lemma_dimm_mono(ls: Seq<Seq<char>>, d: DimmView)
    requires
        ls.len() > 0,
        dimm_from_lines(ls.drop_last(), d),
    ensures
        dimm_from_lines(ls, d),
{
    lemma_label_mono(ls, "Locator:"@, d.locator);
    lemma_label_mono(ls, "Size:"@, d.size_human);
    lemma_label_mono(ls, "Manufacturer:"@, d.manufacturer);
    lemma_label_mono(ls, "Part Number:"@, d.part_number);
    lemma_label_mono(ls, "Serial Number:"@, d.serial_number);
    lemma_label_mono(ls, "Type:"@, d.memory_type);
    lemma_label_mono(ls, "Rank:"@, d.rank);
}

proof fn lemma_last_line_value(ls: Seq<Seq<char>>, label: Seq<char>)
    requires
        ls.len() > 0,
        starts_with(trim(ls.last()), label),
    ensures
        from_label_line(ls, label, label_value(trim(ls.last()), label)),
{
    let i = ls.len() - 1;
    assert(ls[i] == ls.last());
    assert(starts_with(trim(ls[i]), label) && trim(trim(ls[i]).skip(label.len() as int))
        == label_value(trim(ls.last()), label));
}

proof fn lemma_dimm_scan_lines(ls: Seq<Seq<char>>)
    ensures
        dimm_from_lines(ls, dimm_scan(ls).cur),
        forall|i: int|
            0 <= i < dimm_scan(ls).dimms.len() ==> dimm_from_lines(ls, #[trigger] dimm_scan(ls).dimms[i]),
    decreases ls.len(),
{
    if ls.len() > 0 {
        let d = ls.drop_last();
        let st0 = dimm_scan(d);
        lemma_dimm_scan_lines(d);
        lemma_dimm_mono(ls, st0.cur);
        assert forall|i: int| 0 <= i < st0.dimms.len() implies dimm_from_lines(
            ls,
            #[trigger] st0.dimms[i],
        ) by {
            lemma_dimm_mono(ls, st0.dimms[i]);
        }
        let t = trim(ls.last());
        if starts_with(t, "Locator:"@) {
            lemma_last_line_value(ls, "Locator:"@);
        }
        if starts_with(t, "Size:"@) {
            lemma_last_line_value(ls, "Size:"@);
        }
        if starts_with(t, "Manufacturer:"@) {
            lemma_last_line_value(ls, "Manufacturer:"@);
        }
        if starts_with(t, "Part Number:"@) {
            lemma_last_line_value(ls, "Part Number:"@);
        }
        if starts_with(t, "Serial Number:"@) {
            lemma_last_line_value(ls, "Serial Number:"@);
        }
        if starts_with(t, "Type:"@) {
            lemma_last_line_value(ls, "Type:"@);
        }
        if starts_with(t, "Rank:"@) {
            lemma_last_line_value(ls, "Rank:"@);
        }
        assert(DimmView::empty().locator.len() == 0);
        let st = dimm_scan(ls);
        assert(st == dimm_step(st0, t));
        assert forall|i: int| 0 <= i < st.dimms.len() implies dimm_from_lines(
            ls,
            #[trigger] st.dimms[i],
        ) by {
            if i < st0.dimms.len() {
                assert(st.dimms[i] == st0.dimms[i]);
            }
        }
    }
}

/// Every field of every module that `dmidecode -t memory` output gives is either empty or the
/// trimmed text after that field's own label (`Locator:`, `Size:`, `Manufacturer:`,
/// `Part Number:`, `Serial Number:`, `Type:`, `Rank:`) on a line that, trimmed, starts with
/// it: a line such as `Volatile Size:` or `Bank Locator:` never sets a field.
pub proof fn lemma_dimm_fields_from_lines(text: Seq<char>)
    ensures
        forall|i: int|
            0 <= i < dmidecode_dimms(text).len() ==> dimm_from_lines(
                lines(text),
                #[trigger] dmidecode_dimms(text)[i],
            ),
{
    lemma_dimm_scan_lines(lines(text));
    let st = dimm_scan(lines(text));
    assert forall|i: int| 0 <= i < dmidecode_dimms(text).len() implies dimm_from_lines(
        lines(text),
        #[trigger] dmidecode_dimms(text)[i],
    ) by {
        if i < st.dimms.len() {
            assert(dmidecode_dimms(text)[i] == st.dimms[i]);
        }
    }
}

/// A module's size changes only on a line that starts with `Size:`, and there becomes the text
/// after the label, trimmed; any other line but the `Memory Device` that opens a new module
/// leaves the size text and the size in KB as they were.
pub proof fn lemma_size_only_from_size_lines(st: DimmScan, t: Seq<char>)
    ensures
        !starts_with(t, "Size:"@) && !starts_with(t, "Memory Device"@) ==> dimm_step(st, t).cur.size_human
            == st.cur.size_human && dimm_step(st, t).cur.size_kb == st.cur.size_kb,
        starts_with(t, "Size:"@) ==> dimm_step(st, t).cur.size_human == trim(t.skip(5)),
{
    reveal_strlit("Size:");
    reveal_strlit("Memory Device");
    reveal_strlit("Locator:");
    if starts_with(t, "Size:"@) {
        assert(t[0] == 'S') by {
            assert(t.take(5)[0] == t[0]);
        }
        assert(!starts_with(t, "Memory Device"@)) by {
            if starts_with(t, "Memory Device"@) {
                assert(t.take(13)[0] == t[0]);
            }
        }
        assert(!starts_with(t, "Locator:"@)) by {
            if starts_with(t, "Locator:"@) {
                assert(t.take(8)[0] == t[0]);
            }
        }
    }
}

/// Whether `t` starts with `p`; where it does, the rest after `p`, trimmed.
fn label_value_exec(t: &Vec<char>, p: &str) -> (res: Option<Vec<char>>)
    ensures
        match res {
            Some(v) => starts_with(t@, p@) && v@ == label_value(t@, p@),
            None => !starts_with(t@, p@),
        },
{
    if starts_with_str(t, p) {
        let k = to_chars(p).len();
        let rest = slice_chars(t, k, t.len());
        assert(rest@ == t@.skip(p@.len() as int));
        Some(trim_chars(&rest))
    } else {
        None
    }
}

fn first_word_or_zero_exec(s: &Vec<char>) -> (res: Vec<char>)
    ensures
        res@ == first_word_or_zero(s@),
{
    let ws = words_chars(s);
    if ws.len() > 0 {
        assert(ws@[0]@ == seqs_of(ws@)[0]);
        copy_chars(&ws[0])
    } else {
        to_chars("0")
    }
}

fn number_or_zero_exec(s: &Vec<char>, max: u64) -> (res: u64)
    ensures
        res as nat == number_or_zero(s@, max as nat),
{
    match parse_unsigned_exec(s, 10, max) {
        Some(v) => v,
        None => 0,
    }
}

fn dimm_size_kb_exec(s: &Vec<char>, old: u64) -> (res: u64)
    ensures
        res == dimm_size_kb(s@, old),
{
    let x = number_or_zero_exec(&first_word_or_zero_exec(s), u64::MAX);
    if contains_str(s, "MB") {
        x.wrapping_mul(1024)
    } else if contains_str(s, "GB") {
        x.wrapping_mul(1048576)
    } else {
        old
    }
}

fn dimm_line_exec(cur: &mut MemoryDimm, t: &Vec<char>)
    requires
        !starts_with(t@, "Memory Device"@),
    ensures
        final(cur)@ == dimm_step(DimmScan { dimms: Seq::empty(), cur: old(cur)@ }, t@).cur,
{
    if let Some(v) = label_value_exec(t, "Locator:") {
        cur.locator = from_chars(&v);
    } else if let Some(v) = label_value_exec(t, "Size:") {
        cur.size_human = from_chars(&v);
        cur.size_kb = dimm_size_kb_exec(&v, cur.size_kb);
    } else if let Some(v) = label_value_exec(t, "Speed:") {
        cur.speed_mhz = number_or_zero_exec(&first_word_or_zero_exec(&v), u32::MAX as u64) as u32;
    } else if let Some(v) = label_value_exec(t, "Manufacturer:") {
        cur.manufacturer = from_chars(&v);
    } else if let Some(v) = label_value_exec(t, "Part Number:") {
        cur.part_number = from_chars(&v);
    } else if let Some(v) = label_value_exec(t, "Serial Number:") {
        cur.serial_number = from_chars(&v);
    } else if let Some(v) = label_value_exec(t, "Type:") {
        cur.memory_type = from_chars(&v);
    } else if let Some(v) = label_value_exec(t, "Rank:") {
        cur.rank = from_chars(&v);
    }
}

/// The memory modules that `dmidecode -t memory` output lists.
pub fn parse_dmidecode_memory(text: &str) -> (res: Vec<MemoryDimm>)
    ensures
        dimms_of(res@) == dmidecode_dimms(text@),
{
    let chars = to_chars(text);
    let ls = lines_chars(&chars);
    let ghost lv = seqs_of(ls@);
    let mut dimms: Vec<MemoryDimm> = Vec::new();
    let mut cur = MemoryDimm::empty();
    let n = ls.len();
    assert(lv.take(0) == Seq::<Seq<char>>::empty());
    assert(dimms_of(dimms@) =~= Seq::<DimmView>::empty());
    for i in 0..n
        invariant
            n == ls@.len(),
            lv == seqs_of(ls@),
            lv == lines(text@),
            dimm_scan(lv.take(i as int)) == (DimmScan { dimms: dimms_of(dimms@), cur: cur@ }),
    {
        assert(lv.take(i + 1).drop_last() == lv.take(i as int));
        assert(lv.take(i + 1).last() == ls@[i as int]@);
        let ghost st0 = dimm_scan(lv.take(i as int));
        let t = trim_chars(&ls[i]);
        if starts_with_str(&t, "Memory Device") {
            if !cur.locator.as_str().is_empty() {
                let ghost before = dimms_of(dimms@);
                let ghost cv = cur@;
                dimms.push(cur);
                assert(dimms_of(dimms@) =~= before.push(cv));
            }
            cur = MemoryDimm::empty();
        } else {
            dimm_line_exec(&mut cur, &t);
        }
        assert(dimm_scan(lv.take(i + 1)) == dimm_step(st0, t@));
    }
    assert(lv.take(n as int) == lv);
    if !cur.locator.as_str().is_empty() {
        let ghost before = dimms_of(dimms@);
        let ghost cv = cur@;
        dimms.push(cur);
        assert(dimms_of(dimms@) =~= before.push(cv));
    }
    dimms
}

fn mem_total_exec(ls: &Vec<Vec<char>>) -> (res: u64)
    ensures
        res == mem_total(seqs_of(ls@)),
{
    let ghost lv = seqs_of(ls@);
    let n = ls.len();
    let mut total: u64 = 0;
    assert(lv.take(0) == Seq::<Seq<char>>::empty());
    for i in 0..n
        invariant
            n == ls@.len(),
            lv == seqs_of(ls@),
            total == mem_total(lv.take(i as int)),
    {
        assert(lv.take(i + 1).drop_last() == lv.take(i as int));
        assert(lv.take(i + 1).last() == ls@[i as int]@);
        if starts_with_str(&ls[i], "MemTotal:") {
            let ws = words_chars(&ls[i]);
            if ws.len() > 1 {
                assert(ws@[1]@ == seqs_of(ws@)[1]);
                total = number_or_zero_exec(&ws[1], u64::MAX);
            }
        }
    }
    assert(lv.take(n as int) == lv);
    total
}

/// The memory summary: the total from `/proc/meminfo` (where it was read), written for people,
/// and the modules from `dmidecode -t memory` output (where it ran).
pub fn collect_memory(meminfo: Option<&str>, dmidecode: Option<&str>) -> (res: MemoryInfo)
    ensures
        res.total_kb == match meminfo {
            Some(t) => mem_total(lines(t@)),
            None => 0,
        },
        res.total_human@ == size_text(res.total_kb),
        dimms_of(res.dimms@) == match dmidecode {
            Some(t) => dmidecode_dimms(t@),
            None => Seq::empty(),
        },
{
    let total_kb: u64 = match meminfo {
        Some(t) => {
            let chars = to_chars(t);
            let ls = lines_chars(&chars);
            mem_total_exec(&ls)
        },
        None => 0,
    };
    let dimms = match dmidecode {
        Some(t) => parse_dmidecode_memory(t),
        None => {
            let v: Vec<MemoryDimm> = Vec::new();
            assert(dimms_of(v@) =~= Seq::<DimmView>::empty());
            v
        },
    };
    MemoryInfo { total_kb: total_kb, total_human: format_size_kb(total_kb), dimms: dimms }
}

} // verus!
