//! Controllers known to speak GIP over USB, and the order in which plugged
//! devices are tried.

use vstd::prelude::*;

use crate::text::{hex4_upper, push_hex4_upper};

verus! {

/// Number of entries in the table of known controllers.
pub const KNOWN_CONTROLLER_COUNT: usize = 30;

/// Vendor and product ids of the known controllers (from Linux `xpad.c`),
/// the development device first.
pub open spec fn known_ids() -> Seq<(u16, u16)> {
    seq![
        (0x20D6u16, 0x2079u16),
        (0x20D6u16, 0x2009u16),
        (0x20D6u16, 0x200Eu16),
        (0x20D6u16, 0x2064u16),
        (0x20D6u16, 0x281Fu16),
        (0x20D6u16, 0x2001u16),
        (0x20D6u16, 0x2003u16),
        (0x20D6u16, 0x2004u16),
        (0x0E6Fu16, 0x0139u16),
        (0x0E6Fu16, 0x013Au16),
        (0x0E6Fu16, 0x0146u16),
        (0x0E6Fu16, 0x0161u16),
        (0x0E6Fu16, 0x0162u16),
        (0x0E6Fu16, 0x0163u16),
        (0x0E6Fu16, 0x0164u16),
        (0x0E6Fu16, 0x0165u16),
        (0x0F0Du16, 0x0067u16),
        (0x0F0Du16, 0x0078u16),
        (0x24C6u16, 0x541Au16),
        (0x24C6u16, 0x542Au16),
        (0x24C6u16, 0x543Au16),
        (0x24C6u16, 0x551Au16),
        (0x24C6u16, 0x561Au16),
        (0x24C6u16, 0x581Au16),
        (0x045Eu16, 0x02DDu16),
        (0x045Eu16, 0x02E3u16),
        (0x045Eu16, 0x02EAu16),
        (0x045Eu16, 0x02FDu16),
        (0x045Eu16, 0x0B00u16),
        (0x045Eu16, 0x0B12u16)
    ]
}

/// Display names of the known controllers, in table order.
pub open spec fn known_names() -> Seq<Seq<char>> {
    seq![
        "PowerA Xbox Series X Advantage Hall Effect Wired"@,
        "PowerA Enhanced Wired Controller for Xbox Series X|S"@,
        "PowerA Spectra Infinity Enhanced Wired Controller"@,
        "PowerA Wired Controller for Xbox"@,
        "PowerA Wired Controller For Xbox 360"@,
        "BDA / PowerA Xbox Series X Wired Controller"@,
        "PowerA Xbox Series X Fusion Pro 2 Wired"@,
        "PowerA Enhanced Wired Controller (Xbox Series X EnWired Pink Inline)"@,
        "PDP Afterglow Prismatic Wired Xbox One"@,
        "PDP Xbox One Controller"@,
        "PDP Rock Candy Wired for Xbox One"@,
        "PDP Xbox One Controller"@,
        "PDP Xbox One Controller"@,
        "PDP Xbox One Controller"@,
        "PDP Battlefield 1 Xbox One"@,
        "PDP Titanfall 2 Xbox One"@,
        "HORI Pad Pro Xbox One"@,
        "HORI Real Arcade Pro V Kai Xbox One"@,
        "PowerA Xbox One Mini"@,
        "PowerA Xbox One Spectra"@,
        "PowerA Xbox One"@,
        "PowerA Fusion Pro Wired Xbox One"@,
        "PowerA Xbox One Cabled"@,
        "PowerA Enhanced Wired (3rd party)"@,
        "Microsoft Xbox One Controller (wired, post-2015)"@,
        "Microsoft Xbox One Elite Controller (wired)"@,
        "Microsoft Xbox One S Controller (wired)"@,
        "Microsoft Xbox One S Controller (Bluetooth firmware, USB)"@,
        "Microsoft Xbox One Elite Series 2 (wired)"@,
        "Microsoft Xbox Series X|S Controller (wired)"@
    ]
}

/// Entry `i` of the table: vendor id, product id and display name.
pub fn known_controller(i: usize) -> (e: (u16, u16, &'static str))
    requires
        i < KNOWN_CONTROLLER_COUNT,
    ensures
        (e.0, e.1) == known_ids()[i as int],
        e.2@ == known_names()[i as int],
{
    match i {
        0 => (0x20D6, 0x2079, "PowerA Xbox Series X Advantage Hall Effect Wired"),
        1 => (0x20D6, 0x2009, "PowerA Enhanced Wired Controller for Xbox Series X|S"),
        2 => (0x20D6, 0x200E, "PowerA Spectra Infinity Enhanced Wired Controller"),
        3 => (0x20D6, 0x2064, "PowerA Wired Controller for Xbox"),
        4 => (0x20D6, 0x281F, "PowerA Wired Controller For Xbox 360"),
        5 => (0x20D6, 0x2001, "BDA / PowerA Xbox Series X Wired Controller"),
        6 => (0x20D6, 0x2003, "PowerA Xbox Series X Fusion Pro 2 Wired"),
        7 => (0x20D6, 0x2004, "PowerA Enhanced Wired Controller (Xbox Series X EnWired Pink Inline)"),
        8 => (0x0E6F, 0x0139, "PDP Afterglow Prismatic Wired Xbox One"),
        9 => (0x0E6F, 0x013A, "PDP Xbox One Controller"),
        10 => (0x0E6F, 0x0146, "PDP Rock Candy Wired for Xbox One"),
        11 => (0x0E6F, 0x0161, "PDP Xbox One Controller"),
        12 => (0x0E6F, 0x0162, "PDP Xbox One Controller"),
        13 => (0x0E6F, 0x0163, "PDP Xbox One Controller"),
        14 => (0x0E6F, 0x0164, "PDP Battlefield 1 Xbox One"),
        15 => (0x0E6F, 0x0165, "PDP Titanfall 2 Xbox One"),
        16 => (0x0F0D, 0x0067, "HORI Pad Pro Xbox One"),
        17 => (0x0F0D, 0x0078, "HORI Real Arcade Pro V Kai Xbox One"),
        18 => (0x24C6, 0x541A, "PowerA Xbox One Mini"),
        19 => (0x24C6, 0x542A, "PowerA Xbox One Spectra"),
        20 => (0x24C6, 0x543A, "PowerA Xbox One"),
        21 => (0x24C6, 0x551A, "PowerA Fusion Pro Wired Xbox One"),
        22 => (0x24C6, 0x561A, "PowerA Xbox One Cabled"),
        23 => (0x24C6, 0x581A, "PowerA Enhanced Wired (3rd party)"),
        24 => (0x045E, 0x02DD, "Microsoft Xbox One Controller (wired, post-2015)"),
        25 => (0x045E, 0x02E3, "Microsoft Xbox One Elite Controller (wired)"),
        26 => (0x045E, 0x02EA, "Microsoft Xbox One S Controller (wired)"),
        27 => (0x045E, 0x02FD, "Microsoft Xbox One S Controller (Bluetooth firmware, USB)"),
        28 => (0x045E, 0x0B00, "Microsoft Xbox One Elite Series 2 (wired)"),
        _ => (0x045E, 0x0B12, "Microsoft Xbox Series X|S Controller (wired)"),
    }
}


/// Whether `(vid, pid)` is in the table.
pub open spec fn is_known(vid: u16, pid: u16) -> bool {
    known_ids().contains((vid, pid))
}

/// Finds the table entry of a device: the first one with its ids.
pub fn find_known_controller(vid: u16, pid: u16) -> (r: Option<usize>)
    ensures
        r is Some <==> is_known(vid, pid),
        r matches Some(i) ==> i < KNOWN_CONTROLLER_COUNT && known_ids()[i as int] == (vid, pid)
            && forall|j: int| 0 <= j < i ==> known_ids()[j] != (vid, pid),
{
    let mut i: usize = 0;
    while i < KNOWN_CONTROLLER_COUNT
        invariant
            i <= KNOWN_CONTROLLER_COUNT,
            known_ids().len() == KNOWN_CONTROLLER_COUNT,
            forall|j: int| 0 <= j < i ==> known_ids()[j] != (vid, pid),
        decreases KNOWN_CONTROLLER_COUNT - i,
    {
        let e = known_controller(i);
        if e.0 == vid && e.1 == pid {
            return Some(i);
        }
        i = i + 1;
    }
    proof {
        if is_known(vid, pid) {
            let k = choose|k: int| 0 <= k < known_ids().len() && known_ids()[k] == (vid, pid);
            assert(known_ids()[k] != (vid, pid));
        }
    }
    None
}

/// The indices, in enumeration order, of the first `n` devices of `devs`
/// whose ids are `id`.
pub open spec fn devices_with(devs: Seq<(u16, u16)>, id: (u16, u16), n: int) -> Seq<usize>
    decreases n,
{
    if n <= 0 {
        Seq::empty()
    } else {
        let r = devices_with(devs, id, n - 1);
        if devs[n - 1] == id {
            r.push((n - 1) as usize)
        } else {
            r
        }
    }
}

/// The devices that match one of the first `t` table entries, grouped by
/// table entry in table order.
pub open spec fn candidates_upto(devs: Seq<(u16, u16)>, t: int) -> Seq<usize>
    decreases t,
{
    if t <= 0 {
        Seq::empty()
    } else {
        candidates_upto(devs, t - 1) + devices_with(devs, known_ids()[t - 1], devs.len() as int)
    }
}

/// The order in which plugged devices are tried: every device with known
/// ids, those of an earlier table entry first (so the development device
/// wins when several known controllers are plugged in), then in
/// enumeration order.
pub open spec fn candidate_order(devs: Seq<(u16, u16)>) -> Seq<usize> {
    candidates_upto(devs, KNOWN_CONTROLLER_COUNT as int)
}

/// Orders the plugged devices, given by their `(vendor id, product id)` in
/// enumeration order, into the order in which to try opening them.
pub fn controller_candidates(devs: &[(u16, u16)]) -> (order: Vec<usize>)
    ensures
        order@ == candidate_order(devs@),
{
    let n = devs.len();
    let mut order: Vec<usize> = Vec::new();
    for t in 0..KNOWN_CONTROLLER_COUNT
        invariant
            n == devs@.len(),
            known_ids().len() == KNOWN_CONTROLLER_COUNT,
            order@ == candidates_upto(devs@, t as int),
    {
        let e = known_controller(t);
        let ghost before = order@;
        for d in 0..n
            invariant
                n == devs@.len(),
                (e.0, e.1) == known_ids()[t as int],
                order@ == before + devices_with(devs@, (e.0, e.1), d as int),
        {
            let dev = devs[d];
            if dev.0 == e.0 && dev.1 == e.1 {
                order.push(d);
            }
            assert(before + devices_with(devs@, (e.0, e.1), d + 1) =~= (if devs@[d as int] == (e.0, e.1) {
                (before + devices_with(devs@, (e.0, e.1), d as int)).push(d)
            } else {
                before + devices_with(devs@, (e.0, e.1), d as int)
            }));
        }
    }
    order
}


/// The line that lists table entry `i`: `0xVVVV:0xPPPP  name`, ids in
/// four upper-case hex digits.
pub open spec fn list_line_spec(i: int) -> Seq<char> {
    "0x"@ + hex4_upper(known_ids()[i].0) + ":0x"@ + hex4_upper(known_ids()[i].1) + "  "@
        + known_names()[i]
}

/// The line that lists table entry `i` among the supported controllers.
pub fn list_line(i: usize) -> (line: String)
    requires
        i < KNOWN_CONTROLLER_COUNT,
    ensures
        line@ == list_line_spec(i as int),
{
    let e = known_controller(i);
    let mut line = String::from_str("0x");
    push_hex4_upper(&mut line, e.0);
    line.append(":0x");
    push_hex4_upper(&mut line, e.1);
    line.append("  ");
    line.append(e.2);
    line
}

/// The lines that list every supported controller, in table order.
pub fn list_lines() -> (lines: Vec<String>)
    ensures
        lines@.len() == KNOWN_CONTROLLER_COUNT,
        forall|i: int| 0 <= i < KNOWN_CONTROLLER_COUNT ==> #[trigger] lines@[i]@ == list_line_spec(i),
{
    let mut lines: Vec<String> = Vec::new();
    for i in 0..KNOWN_CONTROLLER_COUNT
        invariant
            lines@.len() == i,
            forall|j: int| 0 <= j < i ==> #[trigger] lines@[j]@ == list_line_spec(j),
    {
        lines.push(list_line(i));
    }
    lines
}


proof fn lemma_known_ids_distinct()
    ensures
        forall|i: int, j: int|
            0 <= i < j < KNOWN_CONTROLLER_COUNT ==> #[trigger] known_ids()[i] != #[trigger] known_ids()[j],
{
    assert(forall|i: int, j: int|
        0 <= i < j < KNOWN_CONTROLLER_COUNT ==> #[trigger] known_ids()[i] != #[trigger] known_ids()[j]);
}


/// The table index of the first entry with the ids `id`.
pub open spec fn table_rank(id: (u16, u16)) -> int {
    choose|i: int| 0 <= i < KNOWN_CONTROLLER_COUNT && known_ids()[i] == id
}

proof fn lemma_devices_with(devs: Seq<(u16, u16)>, id: (u16, u16), n: int)
    requires
        0 <= n <= devs.len() <= usize::MAX,
    ensures
        forall|k: int|
            0 <= k < devices_with(devs, id, n).len() ==> {
                let d = #[trigger] devices_with(devs, id, n)[k];
                d < n && devs[d as int] == id
            },
        forall|a: int, b: int|
            0 <= a < b < devices_with(devs, id, n).len() ==> #[trigger] devices_with(devs, id, n)[a]
                < #[trigger] devices_with(devs, id, n)[b],
        forall|d: int|
            0 <= d < n && devs[d] == id ==> #[trigger] devices_with(devs, id, n).contains(d as usize),
    decreases n,
{
    if n > 0 {
        lemma_devices_with(devs, id, n - 1);
        let r = devices_with(devs, id, n - 1);
        if devs[n - 1] == id {
            assert(r.push((n - 1) as usize)[r.len() as int] == (n - 1) as usize);
        }
        assert forall|d: int| 0 <= d < n && devs[d] == id implies #[trigger] devices_with(
            devs,
            id,
            n,
        ).contains(d as usize) by {
            if d < n - 1 {
                assert(r.contains(d as usize));
                let k = choose|k: int| 0 <= k < r.len() && r[k] == d as usize;
                assert(devices_with(devs, id, n)[k] == d as usize);
            } else {
                assert(devices_with(devs, id, n)[r.len() as int] == d as usize);
            }
        }
    }
}

proof fn lemma_candidates_upto(devs: Seq<(u16, u16)>, t: int)
    requires
        0 <= t <= KNOWN_CONTROLLER_COUNT,
        devs.len() <= usize::MAX,
    ensures
        forall|k: int|
            0 <= k < candidates_upto(devs, t).len() ==> {
                let d = #[trigger] candidates_upto(devs, t)[k];
                &&& d < devs.len()
                &&& is_known(devs[d as int].0, devs[d as int].1)
                &&& table_rank(devs[d as int]) < t
            },
        forall|a: int, b: int|
            0 <= a < b < candidates_upto(devs, t).len() ==> {
                let da = #[trigger] candidates_upto(devs, t)[a];
                let db = #[trigger] candidates_upto(devs, t)[b];
                table_rank(devs[da as int]) < table_rank(devs[db as int]) || (table_rank(
                    devs[da as int],
                ) == table_rank(devs[db as int]) && da < db)
            },
        forall|d: int|
            0 <= d < devs.len() && is_known(devs[d].0, devs[d].1) && table_rank(devs[d]) < t
                ==> #[trigger] candidates_upto(devs, t).contains(d as usize),
    decreases t,
{
    lemma_known_ids_distinct();
    if t > 0 {
        lemma_candidates_upto(devs, t - 1);
        let id = known_ids()[t - 1];
        lemma_devices_with(devs, id, devs.len() as int);
        let r = candidates_upto(devs, t - 1);
        let m = devices_with(devs, id, devs.len() as int);
        let c = candidates_upto(devs, t);
        assert(c == r + m);
        assert(known_ids().contains(id)) by {
            assert(known_ids()[t - 1] == id);
        }
        assert(table_rank(id) == t - 1) by {
            let i = table_rank(id);
            assert(known_ids()[t - 1] == id);
            assert(0 <= i < KNOWN_CONTROLLER_COUNT && known_ids()[i] == id);
        }
        assert forall|k: int| 0 <= k < c.len() implies {
            let d = #[trigger] c[k];
            &&& d < devs.len()
            &&& is_known(devs[d as int].0, devs[d as int].1)
            &&& table_rank(devs[d as int]) < t
        } by {
            if k >= r.len() {
                assert(c[k] == m[k - r.len()]);
            }
        }
        assert forall|a: int, b: int| 0 <= a < b < c.len() implies {
            let da = #[trigger] c[a];
            let db = #[trigger] c[b];
            table_rank(devs[da as int]) < table_rank(devs[db as int]) || (table_rank(devs[da as int])
                == table_rank(devs[db as int]) && da < db)
        } by {
            if a >= r.len() {
                assert(c[a] == m[a - r.len()]);
                assert(c[b] == m[b - r.len()]);
            } else if b >= r.len() {
                assert(c[a] == r[a]);
                assert(c[b] == m[b - r.len()]);
            } else {
                assert(c[a] == r[a]);
                assert(c[b] == r[b]);
            }
        }
        assert forall|d: int|
            0 <= d < devs.len() && is_known(devs[d].0, devs[d].1) && table_rank(devs[d]) < t
                implies #[trigger] c.contains(d as usize) by {
            let i = table_rank(devs[d]);
            assert(0 <= i < KNOWN_CONTROLLER_COUNT && known_ids()[i] == devs[d]) by {
                let j = choose|j: int| 0 <= j < known_ids().len() && known_ids()[j] == (devs[d].0, devs[d].1);
                assert(known_ids()[j] == devs[d]);
            }
            if i < t - 1 {
                assert(r.contains(d as usize));
                let k = choose|k: int| 0 <= k < r.len() && r[k] == d as usize;
                assert(c[k] == d as usize);
            } else {
                assert(devs[d] == id);
                assert(m.contains(d as usize));
                let k = choose|k: int| 0 <= k < m.len() && m[k] == d as usize;
                assert(c[r.len() + k] == d as usize);
            }
        }
    }
}

/// Every plugged device with known ids is tried, exactly once, and nothing
/// else is: devices of an earlier table entry come first (the development
/// device wins when several known controllers are plugged in), and devices
/// of the same entry come in enumeration order.
pub proof fn law_candidates_by_table_order(devs: Seq<(u16, u16)>)
    requires
        devs.len() <= usize::MAX,
    ensures
        forall|d: int|
            0 <= d < devs.len() ==> (#[trigger] candidate_order(devs).contains(d as usize) <==> is_known(
                devs[d].0,
                devs[d].1,
            )),
        forall|k: int|
            0 <= k < candidate_order(devs).len() ==> #[trigger] candidate_order(devs)[k] < devs.len(),
        forall|a: int, b: int|
            0 <= a < b < candidate_order(devs).len() ==> {
                let da = #[trigger] candidate_order(devs)[a];
                let db = #[trigger] candidate_order(devs)[b];
                da != db && (table_rank(devs[da as int]) < table_rank(devs[db as int]) || (
                table_rank(devs[da as int]) == table_rank(devs[db as int]) && da < db))
            },
{
    lemma_candidates_upto(devs, KNOWN_CONTROLLER_COUNT as int);
    let c = candidate_order(devs);
    assert forall|d: int| 0 <= d < devs.len() implies (#[trigger] c.contains(d as usize) <==> is_known(
        devs[d].0,
        devs[d].1,
    )) by {
        if c.contains(d as usize) {
            let k = choose|k: int| 0 <= k < c.len() && c[k] == d as usize;
            assert(c[k] == d as usize);
        }
        if is_known(devs[d].0, devs[d].1) {
            let j = choose|j: int| 0 <= j < known_ids().len() && known_ids()[j] == (devs[d].0, devs[d].1);
            assert(known_ids()[j] == devs[d]);
        }
    }
}

} // verus!
