//! Reading what a host probe printed.

use vstd::prelude::*;

use crate::text::{
    chars_lines, chars_of, chars_starts_with, chars_words, lines, parse_i64, parse_i64_chars, starts_with, string_of,
    sub_chars, views, words,
};

verus! {

/// One line of `df -k /` output, read from the right: the numbers of a row
/// whose mount point is `/` (`1K-blocks` and `Used`).
pub open spec fn df_row(line: Seq<char>) -> Option<(i64, i64)> {
    let f = words(line);
    let n = f.len() as int;
    if n < 5 || f[n - 1] != seq!['/'] {
        None
    } else {
        match (parse_i64(f[n - 5]), parse_i64(f[n - 4])) {
            (Some(total), Some(used)) => Some((total, used)),
            _ => None,
        }
    }
}

/// The first line for which `df_row` answers.
pub open spec fn df_first(ls: Seq<Seq<char>>) -> Option<(i64, i64)>
    decreases ls.len(),
{
    if ls.len() == 0 {
        None
    } else {
        match df_row(ls[0]) {
            Some(r) => Some(r),
            None => df_first(ls.drop_first()),
        }
    }
}

/// The kilobyte figures of the root filesystem convert to bytes without
/// leaving `i64`.
pub open spec fn df_fits(s: Seq<char>) -> bool {
    match df_first(lines(s)) {
        Some((total, used)) => i64::MIN <= total * 1024 <= i64::MAX && i64::MIN <= used * 1024 <= i64::MAX,
        None => true,
    }
}

fn df_row_exec(line: &Vec<char>) -> (r: Option<(i64, i64)>)
    ensures
        r == df_row(line@),
{
    let f = chars_words(line);
    let n = f.len();
    assert(views(f@).len() == n);
    if n < 5 {
        return None;
    }
    let last = &f[n - 1];
    assert(last@ == words(line@)[n - 1]);
    if !(last.len() == 1 && last[0] == '/') {
        proof {
            if last@ == seq!['/'] {
                assert(last@[0] == '/');
            }
        }
        return None;
    }
    assert(last@ =~= seq!['/']);
    assert(f@[n - 5]@ == words(line@)[n - 5]);
    assert(f@[n - 4]@ == words(line@)[n - 4]);
    let total = parse_i64_chars(&f[n - 5]);
    let used = parse_i64_chars(&f[n - 4]);
    match (total, used) {
        (Some(t), Some(u)) => Some((t, u)),
        _ => None,
    }
}

/// The figures of the first `/` row of `text`, in kilobytes.
fn df_first_exec(text: &Vec<char>) -> (r: Option<(i64, i64)>)
    ensures
        r == df_first(lines(text@)),
{
    let ls = chars_lines(text);
    let ghost all = lines(text@);
    let mut i: usize = 0;
    assert(all.skip(0) =~= all);
    while i < ls.len()
        invariant
            views(ls@) == all,
            all == lines(text@),
            i <= ls.len(),
            df_first(all) == df_first(all.skip(i as int)),
        decreases ls.len() - i,
    {
        assert(ls@[i as int]@ == all[i as int]);
        assert(all.skip(i as int)[0] == all[i as int]);
        match df_row_exec(&ls[i]) {
            Some(row) => {
                return Some(row);
            },
            None => {
                assert(all.skip(i as int).drop_first() =~= all.skip(i + 1));
            },
        }
        i = i + 1;
    }
    assert(all.skip(i as int) =~= Seq::<Seq<char>>::empty());
    None
}

/// `df -k /` output → (total bytes, used bytes) of the root filesystem, from
/// the first row mounted on `/`. Counted from the right, so a wrapped device
/// name or one containing a space cannot shift the columns, and the header
/// (whose last field is `on`) is skipped.
pub fn parse_df(s: &str) -> (r: Option<(i64, i64)>)
    requires
        df_fits(s@),
    ensures
        r == match df_first(lines(s@)) {
            Some((total, used)) => Some(((total * 1024) as i64, (used * 1024) as i64)),
            None => None,
        },
{
    match df_first_exec(&chars_of(s)) {
        Some((total, used)) => Some((total * 1024, used * 1024)),
        None => None,
    }
}

// ── the host probe ───────────────────────────────────────────────────────────

/// A `---` starts at position `i` of `s`.
pub open spec fn is_sep_at(s: Seq<char>, i: int) -> bool {
    0 <= i && i + 3 <= s.len() && s[i] == '-' && s[i + 1] == '-' && s[i + 2] == '-'
}

/// The first `---` at or after `i`.
pub open spec fn sep_from(s: Seq<char>, i: int) -> Option<int>
    decreases s.len() - i,
{
    if i < 0 || i + 3 > s.len() {
        None
    } else if is_sep_at(s, i) {
        Some(i)
    } else {
        sep_from(s, i + 1)
    }
}

/// `splitn(3, "---")` of the probe's output, when it has at least two
/// sections: memory, CPU, and the filesystem (empty when the probe printed
/// none).
pub open spec fn sections(s: Seq<char>) -> Option<(Seq<char>, Seq<char>, Seq<char>)> {
    match sep_from(s, 0) {
        None => None,
        Some(a) => {
            let rest = s.skip(a + 3);
            match sep_from(rest, 0) {
                None => Some((s.take(a), rest, Seq::<char>::empty())),
                Some(b) => Some((s.take(a), rest.take(b), rest.skip(b + 3))),
            }
        },
    }
}

/// The first line that starts with `key`.
pub open spec fn first_starting(ls: Seq<Seq<char>>, key: Seq<char>) -> Option<Seq<char>>
    decreases ls.len(),
{
    if ls.len() == 0 {
        None
    } else if starts_with(ls[0], key) {
        Some(ls[0])
    } else {
        first_starting(ls.drop_first(), key)
    }
}

/// A `/proc/meminfo` figure in bytes: the second field of the first line
/// starting with `key`, in kB.
pub open spec fn meminfo_kb(mem: Seq<char>, key: Seq<char>) -> Option<int> {
    match first_starting(lines(mem), key) {
        None => None,
        Some(l) => if words(l).len() < 2 {
            None
        } else {
            match parse_i64(words(l)[1]) {
                Some(v) => Some(v * 1024),
                None => None,
            }
        },
    }
}

pub open spec fn in_i64(v: int) -> bool {
    i64::MIN <= v <= i64::MAX
}

/// The probe's figures stay inside `i64` once converted to bytes.
pub open spec fn probe_fits(s: Seq<char>) -> bool {
    match sections(s) {
        None => true,
        Some((mem, _cpu, disk)) => match meminfo_kb(mem, "MemTotal"@) {
            None => true,
            Some(t) => in_i64(t) && df_fits(disk) && match meminfo_kb(mem, "MemAvailable"@) {
                Some(a) => in_i64(a) && in_i64(t - a),
                None => true,
            },
        },
    }
}

/// What the host probe reported, the CPU section left as text: its figures
/// are fractional and read by the caller.
#[derive(Debug, Clone, PartialEq, Eq)]
pub struct ProbeText {
    pub mem_total: i64,
    pub mem_used: i64,
    pub cpu: String,
    pub disk_total: i64,
    pub disk_used: i64,
}

fn sep_exec(v: &Vec<char>, from: usize) -> (r: Option<usize>)
    requires
        from <= v.len(),
    ensures
        match r {
            Some(i) => sep_from(v@, from as int) == Some(i as int) && from <= i && i + 3 <= v.len(),
            None => sep_from(v@, from as int) is None,
        },
{
    let mut i = from;
    while v.len() - i >= 3
        invariant
            from <= i <= v.len(),
            sep_from(v@, from as int) == sep_from(v@, i as int),
        decreases v.len() - i,
    {
        if v[i] == '-' && v[i + 1] == '-' && v[i + 2] == '-' {
            return Some(i);
        }
        i = i + 1;
    }
    None
}

fn kb_exec(mem: &Vec<char>, key: &str) -> (r: Option<i128>)
    ensures
        match r {
            Some(v) => meminfo_kb(mem@, key@) == Some(v as int),
            None => meminfo_kb(mem@, key@) is None,
        },
{
    let ls = chars_lines(mem);
    let k = chars_of(key);
    let ghost all = lines(mem@);
    let mut i: usize = 0;
    assert(all.skip(0) =~= all);
    while i < ls.len()
        invariant
            views(ls@) == all,
            all == lines(mem@),
            k@ == key@,
            i <= ls.len(),
            first_starting(all, key@) == first_starting(all.skip(i as int), key@),
        decreases ls.len() - i,
    {
        assert(ls@[i as int]@ == all[i as int]);
        assert(all.skip(i as int)[0] == all[i as int]);
        if chars_starts_with(&ls[i], &k) {
            let w = chars_words(&ls[i]);
            if w.len() < 2 {
                return None;
            }
            assert(w@[1]@ == words(all[i as int])[1]);
            return match parse_i64_chars(&w[1]) {
                Some(v) => Some(v as i128 * 1024),
                None => None,
            };
        }
        assert(all.skip(i as int).drop_first() =~= all.skip(i + 1));
        i = i + 1;
    }
    assert(all.skip(i as int) =~= Seq::<Seq<char>>::empty());
    None
}

/// The host probe's output → memory and disk in bytes, with the CPU section
/// as printed. Sections are split at the first two `---`; the memory section
/// must report `MemTotal` (used is total less `MemAvailable`, when given);
/// a missing or unreadable filesystem section reads as 0/0, "not measured".
/// No second section, or no `MemTotal`, is no reading at all.
pub fn parse_probe(s: &str) -> (r: Option<ProbeText>)
    requires
        probe_fits(s@),
    ensures
        match sections(s@) {
            None => r is None,
            Some((mem, cpu, disk)) => match meminfo_kb(mem, "MemTotal"@) {
                None => r is None,
                Some(t) => r matches Some(p) && {
                    &&& p.mem_total == t
                    &&& p.mem_used == t - match meminfo_kb(mem, "MemAvailable"@) {
                        Some(a) => a,
                        None => 0,
                    }
                    &&& p.cpu@ == cpu
                    &&& (p.disk_total, p.disk_used) == match df_first(lines(disk)) {
                        Some((total, used)) => ((total * 1024) as i64, (used * 1024) as i64),
                        None => (0i64, 0i64),
                    }
                },
            },
        },
{
    let v = chars_of(s);
    let a = match sep_exec(&v, 0) {
        Some(a) => a,
        None => {
            return None;
        },
    };
    let mem = sub_chars(&v, 0, a);
    let rest = sub_chars(&v, a + 3, v.len());
    assert(mem@ =~= s@.take(a as int));
    assert(rest@ =~= s@.skip(a + 3));
    let (cpu, disk) = match sep_exec(&rest, 0) {
        None => (rest, Vec::new()),
        Some(b) => {
            let c = sub_chars(&rest, 0, b);
            let d = sub_chars(&rest, b + 3, rest.len());
            assert(c@ =~= rest@.take(b as int));
            assert(d@ =~= rest@.skip(b + 3));
            (c, d)
        },
    };
    proof {
        reveal_strlit("MemTotal");
        reveal_strlit("MemAvailable");
    }
    let total: i64 = match kb_exec(&mem, "MemTotal") {
        Some(t) => t as i64,
        None => {
            return None;
        },
    };
    let avail: i64 = match kb_exec(&mem, "MemAvailable") {
        Some(x) => x as i64,
        None => 0,
    };
    let disk_text = string_of(&disk);
    let (disk_total, disk_used) = match parse_df(disk_text.as_str()) {
        Some(d) => d,
        None => (0, 0),
    };
    Some(ProbeText { mem_total: total, mem_used: total - avail, cpu: string_of(&cpu), disk_total, disk_used })
}


/// Whether the probe's figures stay inside `i64` once converted to bytes:
/// exactly the inputs `parse_probe` accepts.
pub fn probe_in_range(s: &str) -> (b: bool)
    ensures
        b == probe_fits(s@),
{
    let v = chars_of(s);
    let a = match sep_exec(&v, 0) {
        Some(a) => a,
        None => {
            return true;
        },
    };
    let mem = sub_chars(&v, 0, a);
    let rest = sub_chars(&v, a + 3, v.len());
    assert(mem@ =~= s@.take(a as int));
    assert(rest@ =~= s@.skip(a + 3));
    let disk = match sep_exec(&rest, 0) {
        None => Vec::new(),
        Some(b) => {
            let d = sub_chars(&rest, b + 3, rest.len());
            assert(d@ =~= rest@.skip(b + 3));
            d
        },
    };
    proof {
        reveal_strlit("MemTotal");
        reveal_strlit("MemAvailable");
    }
    let ghost parts = sections(s@)->0;
    assert(disk@ == parts.2) by {
        if sep_from(rest@, 0) is None {
            assert(disk@ =~= Seq::<char>::empty());
        }
    }
    let total = match kb_exec(&mem, "MemTotal") {
        Some(t) => t,
        None => {
            return true;
        },
    };
    let lo: i128 = -0x8000_0000_0000_0000;
    let hi: i128 = 0x7fff_ffff_ffff_ffff;
    if total < lo || total > hi {
        return false;
    }
    let df_ok = match df_first_exec(&disk) {
        Some((t, u)) => {
            let tb = t as i128 * 1024;
            let ub = u as i128 * 1024;
            lo <= tb && tb <= hi && lo <= ub && ub <= hi
        },
        None => true,
    };
    if !df_ok {
        return false;
    }
    match kb_exec(&mem, "MemAvailable") {
        Some(x) => lo <= x && x <= hi && lo <= total - x && total - x <= hi,
        None => true,
    }
}

} // verus!
