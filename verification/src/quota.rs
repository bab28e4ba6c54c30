//! Disk quotas on ext4 with project quota: size strings, the mount table, and the
//! `chattr` / `setquota` invocations that apply or clear a project quota.
use vstd::prelude::*;
use crate::text;

verus! {

// ───────────────────────── size strings ─────────────────────────

/// Index of the first character of `s` that is neither numeric nor `.` (or `s.len()`).
pub open spec fn number_end(s: Seq<char>) -> int
    decreases s.len(),
{
    if s.len() == 0 {
        0
    } else if !text::unicode_numeric(s[0]) && s[0] != '.' {
        0
    } else {
        1 + number_end(s.drop_first())
    }
}

pub proof fn lemma_number_end(s: Seq<char>)
    ensures
        0 <= number_end(s) <= s.len(),
        forall|j: int| 0 <= j < number_end(s) ==> text::unicode_numeric(s[j]) || s[j] == '.',
        number_end(s) < s.len() ==> !text::unicode_numeric(s[number_end(s)]) && s[number_end(s)] != '.',
    decreases s.len(),
{
    if s.len() > 0 && (text::unicode_numeric(s[0]) || s[0] == '.') {
        lemma_number_end(s.drop_first());
        assert forall|j: int| 0 <= j < number_end(s) implies text::unicode_numeric(s[j]) || s[j] == '.' by {
            if j > 0 {
                assert(s[j] == s.drop_first()[j - 1]);
            }
        }
    }
}

/// A lowercased size string split into its number, up to the first character that is
/// neither numeric nor `.`, and the rest, its unit.
pub open spec fn spec_number_unit(l: Seq<char>) -> (Seq<char>, Seq<char>) {
    let k = number_end(l);
    (l.subrange(0, k), l.subrange(k, l.len() as int))
}

/// Splits a lowercased size string such as `"1.5g"` into its number (`"1.5"`) and its
/// unit (`"g"`).
pub fn split_number_unit(l: &str) -> (r: (String, String))
    ensures
        (r.0@, r.1@) == spec_number_unit(l@),
{
    let l = text::chars_of(l);
    let mut k: usize = 0;
    while k < l.len() && (text::char_is_numeric(l[k]) || l[k] == '.')
        invariant
            k <= l@.len(),
            forall|j: int| 0 <= j < k ==> text::unicode_numeric(l@[j]) || l@[j] == '.',
        decreases l@.len() - k,
    {
        k = k + 1;
    }
    proof {
        lemma_number_end(l@);
        let e = number_end(l@);
        if e < k {
            assert(text::unicode_numeric(l@[e]) || l@[e] == '.');
        } else if k < e {
            assert(!(text::unicode_numeric(l@[k as int]) || l@[k as int] == '.'));
        }
    }
    (text::string_of_range(&l, 0, k), text::string_of_range(&l, k, l.len()))
}

/// A size string split into its number and its unit: the string is trimmed and
/// lowercased, then split as [`split_number_unit`] does.
pub open spec fn spec_disk_limit_parts(s: Seq<char>) -> (Seq<char>, Seq<char>) {
    spec_number_unit(text::unicode_lowercase(text::trim(s)))
}

/// Splits a size string such as `"10G "` into its number (`"10"`) and unit (`"g"`).
pub fn disk_limit_parts(s: &str) -> (r: (String, String))
    ensures
        (r.0@, r.1@) == spec_disk_limit_parts(s@),
{
    let t = text::trimmed_string(s);
    let lower = text::to_lowercase(t.as_str());
    split_number_unit(lower.as_str())
}

/// The number of bytes in one unit, after trimming: `g`/`gb` a gibibyte, `m`/`mb` a
/// mebibyte, `k`/`kb` a kibibyte, no unit a byte; any other unit is not a size.
pub open spec fn spec_size_unit_multiplier(unit: Seq<char>) -> Option<u64> {
    let u = text::trim(unit);
    if u == "gb"@ || u == "g"@ {
        Some(1073741824)
    } else if u == "mb"@ || u == "m"@ {
        Some(1048576)
    } else if u == "kb"@ || u == "k"@ {
        Some(1024)
    } else if u.len() == 0 {
        Some(1)
    } else {
        None
    }
}

/// The number of bytes in one unit of a size string; `None` for an unknown unit.
pub fn size_unit_multiplier(unit: &str) -> (r: Option<u64>)
    ensures
        r == spec_size_unit_multiplier(unit@),
{
    let u = text::trim_str(unit);
    if text::chars_eq_str(&u, "gb") || text::chars_eq_str(&u, "g") {
        Some(1073741824)
    } else if text::chars_eq_str(&u, "mb") || text::chars_eq_str(&u, "m") {
        Some(1048576)
    } else if text::chars_eq_str(&u, "kb") || text::chars_eq_str(&u, "k") {
        Some(1024)
    } else if u.len() == 0 {
        Some(1)
    } else {
        None
    }
}

// ───────────────────────── the mount table ─────────────────────────

/// Byte length of the UTF-8 encoding of `s`.
pub open spec fn utf8_len(s: Seq<char>) -> nat {
    vstd::utf8::encode_utf8(s).len()
}

/// The options field of a mount-table line, empty when absent.
pub open spec fn mount_options(w: Seq<Seq<char>>) -> Seq<char> {
    if w.len() > 3 {
        w[3]
    } else {
        ""@
    }
}

/// A comma-separated option list holds `prjquota` or `prjjquota`.
pub open spec fn has_project_quota(opts: Seq<char>) -> bool {
    exists|i: int|
        0 <= i < text::split_char(opts, ',').len() && (text::split_char(opts, ',')[i] == "prjquota"@
            || text::split_char(opts, ',')[i] == "prjjquota"@)
}

/// The words of a mount-table line describe an ext4 filesystem with project quota.
pub open spec fn is_pquota_ext4(w: Seq<Seq<char>>) -> bool {
    w.len() >= 3 && w[2] == "ext4"@ && has_project_quota(mount_options(w))
}

/// A mount point as a directory prefix: `/` stays, anything else gets a trailing `/`.
pub open spec fn mount_prefix(m: Seq<char>) -> Seq<char> {
    if m == "/"@ {
        "/"@
    } else {
        m + "/"@
    }
}

/// A path as a directory: with a trailing `/`.
pub open spec fn dir_form(a: Seq<char>) -> Seq<char> {
    if a.len() > 0 && a.last() == '/' {
        a
    } else {
        a + "/"@
    }
}

/// The mount point `m` contains the absolute path `a`.
pub open spec fn mount_contains(m: Seq<char>, a: Seq<char>) -> bool {
    text::has_prefix(dir_form(a), mount_prefix(m))
}

/// The search for the ext4 project-quota mount of `a` over the lines `ls`, with `best`
/// found so far: lines with fewer than three fields are skipped; a qualifying mount
/// replaces `best` when its byte length is greater.
pub open spec fn scan_pquota_mounts(ls: Seq<Seq<char>>, a: Seq<char>, best: Option<Seq<char>>) -> Option<
    Seq<char>,
>
    decreases ls.len(),
{
    if ls.len() == 0 {
        best
    } else {
        let w = text::words(ls[0]);
        let next = if w.len() >= 3 && is_pquota_ext4(w) && mount_contains(w[1], a) && (best is None
            || utf8_len(w[1]) > utf8_len(best->0)) {
            Some(w[1])
        } else {
            best
        };
        scan_pquota_mounts(ls.drop_first(), a, next)
    }
}

/// The ext4 project-quota mount point for the absolute path `a`, read from a
/// `/proc/mounts` text: the longest qualifying mount point that contains `a`
/// (the first of equal length), or nothing when none qualifies; lines with fewer than
/// three fields are skipped.
pub open spec fn spec_ext4_pquota_mount(mounts: Seq<char>, a: Seq<char>) -> Option<Seq<char>> {
    scan_pquota_mounts(text::lines(mounts), a, None)
}

/// The line `l` of a mount table describes an ext4 project-quota mount that contains `a`.
pub open spec fn line_qualifies(l: Seq<char>, a: Seq<char>) -> bool {
    let w = text::words(l);
    w.len() >= 3 && is_pquota_ext4(w) && mount_contains(w[1], a)
}

proof fn lemma_scan_longest(ls: Seq<Seq<char>>, a: Seq<char>, best: Option<Seq<char>>, m: Seq<char>)
    requires
        scan_pquota_mounts(ls, a, best) == Some(m),
    ensures
        best == Some(m) || exists|i: int| 0 <= i < ls.len() && line_qualifies(ls[i], a) && text::words(ls[i])[1] == m,
        forall|i: int| 0 <= i < ls.len() && line_qualifies(ls[i], a) ==> utf8_len(#[trigger] text::words(ls[i])[1]) <= utf8_len(m),
        best is Some ==> utf8_len(best->0) <= utf8_len(m),
    decreases ls.len(),
{
    if ls.len() > 0 {
        let w = text::words(ls[0]);
        let next = if w.len() >= 3 && is_pquota_ext4(w) && mount_contains(w[1], a) && (best is None || utf8_len(w[1]) > utf8_len(best->0)) {
            Some(w[1])
        } else {
            best
        };
        lemma_scan_longest(ls.drop_first(), a, next, m);
        assert forall|i: int| 0 <= i < ls.len() && line_qualifies(ls[i], a) implies utf8_len(#[trigger] text::words(ls[i])[1]) <= utf8_len(m) by {
            if i > 0 {
                assert(ls[i] == ls.drop_first()[i - 1]);
            }
        }
        if next != Some(m) {
            let i = choose|i: int| 0 <= i < ls.drop_first().len() && line_qualifies(ls.drop_first()[i], a) && text::words(ls.drop_first()[i])[1] == m;
            assert(ls[i + 1] == ls.drop_first()[i]);
        } else if best != Some(m) {
            assert(line_qualifies(ls[0], a));
        }
    }
}

/// The mount chosen for a path is an ext4 project-quota mount point listed in the
/// table that contains the path, and no other such mount point is longer.
pub proof fn lemma_pquota_mount_is_longest(mounts: Seq<char>, a: Seq<char>)
    requires
        spec_ext4_pquota_mount(mounts, a) is Some,
    ensures
        ({
            let m = spec_ext4_pquota_mount(mounts, a)->0;
            let ls = text::lines(mounts);
            &&& exists|i: int| 0 <= i < ls.len() && line_qualifies(ls[i], a) && text::words(ls[i])[1] == m
            &&& forall|i: int| 0 <= i < ls.len() && line_qualifies(ls[i], a) ==> utf8_len(#[trigger] text::words(ls[i])[1]) <= utf8_len(m)
        }),
{
    let m = spec_ext4_pquota_mount(mounts, a)->0;
    lemma_scan_longest(text::lines(mounts), a, None, m);
}

proof fn lemma_scan_none(ls: Seq<Seq<char>>, a: Seq<char>, best: Option<Seq<char>>)
    ensures
        scan_pquota_mounts(ls, a, best) is None <==> (best is None && forall|i: int|
            0 <= i < ls.len() ==> !line_qualifies(#[trigger] ls[i], a)),
    decreases ls.len(),
{
    if ls.len() > 0 {
        let w = text::words(ls[0]);
        let next = if w.len() >= 3 && is_pquota_ext4(w) && mount_contains(w[1], a) && (best is None
            || utf8_len(w[1]) > utf8_len(best->0)) {
            Some(w[1])
        } else {
            best
        };
        lemma_scan_none(ls.drop_first(), a, next);
        if best is None && forall|i: int| 0 <= i < ls.len() ==> !line_qualifies(#[trigger] ls[i], a) {
            assert(!line_qualifies(ls[0], a));
            assert forall|i: int| 0 <= i < ls.drop_first().len() implies !line_qualifies(#[trigger] ls.drop_first()[i], a) by {
                assert(ls.drop_first()[i] == ls[i + 1]);
            }
        }
        if scan_pquota_mounts(ls, a, best) is None {
            assert(next is None);
            assert(best is None);
            assert(!line_qualifies(ls[0], a));
            assert forall|i: int| 0 <= i < ls.len() implies !line_qualifies(#[trigger] ls[i], a) by {
                if i > 0 {
                    assert(ls[i] == ls.drop_first()[i - 1]);
                }
            }
        }
    }
}

/// The search finds nothing exactly when no line of the table is an ext4 project-quota
/// mount that contains the path.
pub proof fn lemma_pquota_mount_none(mounts: Seq<char>, a: Seq<char>)
    ensures
        spec_ext4_pquota_mount(mounts, a) is None <==> forall|i: int|
            0 <= i < text::lines(mounts).len() ==> !line_qualifies(#[trigger] text::lines(mounts)[i], a),
{
    lemma_scan_none(text::lines(mounts), a, None);
}

/// Whether `opts` holds `prjquota` or `prjjquota`.
fn has_project_quota_exec(opts: &Vec<char>) -> (r: bool)
    ensures
        r == has_project_quota(opts@),
{
    let parts = text::split_on(opts, ',');
    let mut i: usize = 0;
    while i < parts.len()
        invariant
            i <= parts@.len(),
            text::views(parts@) == text::split_char(opts@, ','),
            forall|j: int|
                0 <= j < i ==> !(parts@[j]@ == "prjquota"@ || parts@[j]@ == "prjjquota"@),
        decreases parts@.len() - i,
    {
        if text::chars_eq_str(&parts[i], "prjquota") || text::chars_eq_str(&parts[i], "prjjquota") {
            proof {
                assert(text::split_char(opts@, ',')[i as int] == parts@[i as int]@);
            }
            return true;
        }
        i = i + 1;
    }
    proof {
        let sp = text::split_char(opts@, ',');
        assert forall|j: int| 0 <= j < sp.len() implies !(sp[j] == "prjquota"@ || sp[j] == "prjjquota"@) by {
            assert(sp[j] == parts@[j]@);
        }
    }
    false
}

/// Whether the words of a mount-table line describe an ext4 project-quota mount.
fn is_pquota_ext4_exec(w: &Vec<Vec<char>>) -> (r: bool)
    requires
        w@.len() >= 3,
    ensures
        r == is_pquota_ext4(text::views(w@)),
{
    let wv = Ghost(text::views(w@));
    assert(wv@[2] == w@[2]@);
    if !text::chars_eq_str(&w[2], "ext4") {
        return false;
    }
    if w.len() > 3 {
        assert(wv@[3] == w@[3]@);
        has_project_quota_exec(&w[3])
    } else {
        let empty: Vec<char> = Vec::new();
        assert(empty@ =~= ""@) by {
            reveal_strlit("");
        }
        has_project_quota_exec(&empty)
    }
}

/// `m` as a directory prefix.
fn mount_prefix_exec(m: &Vec<char>) -> (r: Vec<char>)
    ensures
        r@ == mount_prefix(m@),
{
    let mut r = text::sub_vec(m, 0, m.len());
    assert(m@.subrange(0, m@.len() as int) =~= m@);
    if text::chars_eq_str(m, "/") {
        return r;
    }
    r.push('/');
    proof {
        reveal_strlit("/");
        assert(r@ =~= m@ + "/"@);
    }
    r
}

/// `a` as a directory.
fn dir_form_exec(a: &Vec<char>) -> (r: Vec<char>)
    ensures
        r@ == dir_form(a@),
{
    let mut r = text::sub_vec(a, 0, a.len());
    assert(a@.subrange(0, a@.len() as int) =~= a@);
    if a.len() > 0 && a[a.len() - 1] == '/' {
        return r;
    }
    r.push('/');
    proof {
        reveal_strlit("/");
        assert(r@ =~= a@ + "/"@);
    }
    r
}

proof fn lemma_encode_utf8_concat(a: Seq<char>, b: Seq<char>)
    ensures
        vstd::utf8::encode_utf8(a + b) == vstd::utf8::encode_utf8(a) + vstd::utf8::encode_utf8(b),
    decreases a.len(),
{
    if a.len() == 0 {
        assert(a + b =~= b);
        assert(vstd::utf8::encode_utf8(a) =~= Seq::<u8>::empty());
        assert(vstd::utf8::encode_utf8(a) + vstd::utf8::encode_utf8(b) =~= vstd::utf8::encode_utf8(b));
    } else {
        assert((a + b).drop_first() =~= a.drop_first() + b);
        assert((a + b)[0] == a[0]);
        lemma_encode_utf8_concat(a.drop_first(), b);
        assert(vstd::utf8::encode_utf8(a + b) =~= vstd::utf8::encode_scalar(a[0] as u32) + (
        vstd::utf8::encode_utf8(a.drop_first()) + vstd::utf8::encode_utf8(b)));
    }
}

/// Number of bytes in the UTF-8 encoding of `c`.
fn char_utf8_width(c: char) -> (r: u128)
    ensures
        r == vstd::utf8::encode_scalar(c as u32).len(),
{
    let u = c as u32;
    if u <= 0x7F {
        1
    } else if u <= 0x7FF {
        2
    } else if u <= 0xFFFF && !(0xD800 <= u && u <= 0xDFFF) {
        3
    } else {
        4
    }
}

/// Byte length of the UTF-8 encoding of `v`.
pub fn utf8_len_exec(v: &Vec<char>) -> (r: u128)
    ensures
        r == utf8_len(v@),
{
    let mut acc: u128 = 0;
    let mut i: usize = 0;
    assert(v@.subrange(0, 0) =~= Seq::<char>::empty());
    assert(vstd::utf8::encode_utf8(Seq::<char>::empty()) =~= Seq::<u8>::empty());
    while i < v.len()
        invariant
            i <= v@.len(),
            acc == utf8_len(v@.subrange(0, i as int)),
            acc <= 4 * i,
        decreases v@.len() - i,
    {
        let w = char_utf8_width(v[i]);
        proof {
            let c = v@[i as int];
            assert(v@.subrange(0, i + 1) =~= v@.subrange(0, i as int) + seq![c]);
            lemma_encode_utf8_concat(v@.subrange(0, i as int), seq![c]);
            assert(seq![c].drop_first() =~= Seq::<char>::empty());
            assert(vstd::utf8::encode_utf8(seq![c]) =~= vstd::utf8::encode_scalar(c as u32) + vstd::utf8::encode_utf8(Seq::<char>::empty()));
        }
        acc = acc + w;
        i = i + 1;
    }
    assert(v@.subrange(0, v@.len() as int) =~= v@);
    acc
}

/// The ext4 project-quota mount point for the absolute path `abs_path`, from the text
/// of `/proc/mounts`.
pub fn ext4_pquota_mount_in(mounts: &str, abs_path: &str) -> (r: Option<String>)
    ensures
        text::opt_string_view(r) == spec_ext4_pquota_mount(mounts@, abs_path@),
{
    let mv = text::chars_of(mounts);
    let ls = text::lines_of(&mv);
    let av = text::chars_of(abs_path);
    let a = dir_form_exec(&av);
    let n = ls.len();
    let mut best: Option<Vec<char>> = None;
    let mut best_len: u128 = 0;
    let mut i: usize = 0;
    let ghost lv = text::views(ls@);
    assert(lv.subrange(0, n as int) =~= lv);
    while i < n
        invariant
            n == ls@.len(),
            i <= n,
            lv == text::views(ls@),
            lv == text::lines(mounts@),
            av@ == abs_path@,
            a@ == dir_form(abs_path@),
            best is Some ==> best_len == utf8_len(best->0@),
            spec_ext4_pquota_mount(mounts@, abs_path@) == scan_pquota_mounts(
                lv.subrange(i as int, n as int),
                abs_path@,
                text::opt_chars_view(best),
            ),
        decreases n - i,
    {
        let ghost rest = lv.subrange(i as int, n as int);
        proof {
            assert(rest[0] == ls@[i as int]@);
            assert(rest.drop_first() =~= lv.subrange(i + 1, n as int));
        }
        let w = text::words_of(&ls[i]);
        let ghost wv = text::views(w@);
        if w.len() >= 3 && is_pquota_ext4_exec(&w) {
            assert(wv[1] == w@[1]@);
            let mp = mount_prefix_exec(&w[1]);
            if text::starts_with(&a, &mp) {
                let len = utf8_len_exec(&w[1]);
                let better = match &best {
                    None => true,
                    Some(_) => len > best_len,
                };
                if better {
                    best = Some(text::sub_vec(&w[1], 0, w[1].len()));
                    best_len = len;
                    assert(w@[1]@.subrange(0, w@[1]@.len() as int) =~= w@[1]@);
                }
            }
        }
        i = i + 1;
    }
    match best {
        Some(b) => Some(text::string_of(&b)),
        None => None,
    }
}

/// The distinct mount points of the ext4 project-quota mounts in the lines `ls`, in
/// order of first appearance, after those already in `out` (lines with fewer than three
/// fields are skipped).
pub open spec fn collect_pquota_mounts(ls: Seq<Seq<char>>, out: Seq<Seq<char>>) -> Seq<Seq<char>>
    decreases ls.len(),
{
    if ls.len() == 0 {
        out
    } else {
        let w = text::words(ls[0]);
        let next = if w.len() >= 3 && is_pquota_ext4(w) && !out.contains(w[1]) {
            out.push(w[1])
        } else {
            out
        };
        collect_pquota_mounts(ls.drop_first(), next)
    }
}

/// The distinct ext4 project-quota mount points listed in a `/proc/mounts` text.
pub open spec fn spec_ext4_pquota_mounts(mounts: Seq<char>) -> Seq<Seq<char>> {
    collect_pquota_mounts(text::lines(mounts), seq![])
}

/// Whether `out` already holds `m`.
fn contains_string(out: &Vec<String>, m: &Vec<char>) -> (r: bool)
    ensures
        r == text::string_views(out@).contains(m@),
{
    let mut i: usize = 0;
    while i < out.len()
        invariant
            i <= out@.len(),
            forall|j: int| 0 <= j < i ==> out@[j]@ != m@,
        decreases out@.len() - i,
    {
        let c = text::chars_of(out[i].as_str());
        if text::chars_eq(&c, m) {
            assert(text::string_views(out@)[i as int] == m@);
            return true;
        }
        i = i + 1;
    }
    proof {
        if text::string_views(out@).contains(m@) {
            let j = choose|j: int| 0 <= j < out@.len() && text::string_views(out@)[j] == m@;
            assert(out@[j]@ == m@);
        }
    }
    false
}

/// The distinct ext4 project-quota mount points in the text of `/proc/mounts`.
pub fn ext4_pquota_mount_list(mounts: &str) -> (r: Vec<String>)
    ensures
        text::string_views(r@) == spec_ext4_pquota_mounts(mounts@),
{
    let mv = text::chars_of(mounts);
    let ls = text::lines_of(&mv);
    let n = ls.len();
    let mut out: Vec<String> = Vec::new();
    let mut i: usize = 0;
    let ghost lv = text::views(ls@);
    assert(lv.subrange(0, n as int) =~= lv);
    assert(text::string_views(out@) =~= Seq::<Seq<char>>::empty());
    while i < n
        invariant
            n == ls@.len(),
            i <= n,
            lv == text::views(ls@),
            lv == text::lines(mounts@),
            spec_ext4_pquota_mounts(mounts@) == collect_pquota_mounts(
                lv.subrange(i as int, n as int),
                text::string_views(out@),
            ),
        decreases n - i,
    {
        let ghost rest = lv.subrange(i as int, n as int);
        proof {
            assert(rest[0] == ls@[i as int]@);
            assert(rest.drop_first() =~= lv.subrange(i + 1, n as int));
        }
        let w = text::words_of(&ls[i]);
        if w.len() >= 3 {
            let ghost wv = text::views(w@);
            assert(wv[1] == w@[1]@);
            if is_pquota_ext4_exec(&w) && !contains_string(&out, &w[1]) {
                let ghost before = text::string_views(out@);
                out.push(text::string_of(&w[1]));
                assert(text::string_views(out@) =~= before.push(w@[1]@));
            }
        }
        i = i + 1;
    }
    out
}

/// The mounts to clear a project quota on: `primary` first when there is one, then the
/// others of `all` that are not yet listed, in order.
pub open spec fn spec_quota_clear_targets(primary: Option<Seq<char>>, all: Seq<Seq<char>>) -> Seq<
    Seq<char>,
> {
    add_missing(
        match primary {
            Some(p) => seq![p],
            None => seq![],
        },
        all,
    )
}

/// `out` followed by the elements of `xs` that are not yet in it, in order.
pub open spec fn add_missing(out: Seq<Seq<char>>, xs: Seq<Seq<char>>) -> Seq<Seq<char>>
    decreases xs.len(),
{
    if xs.len() == 0 {
        out
    } else {
        add_missing(
            if out.contains(xs[0]) {
                out
            } else {
                out.push(xs[0])
            },
            xs.drop_first(),
        )
    }
}

/// The mounts on which to clear a project quota.
pub fn quota_clear_targets(primary: Option<String>, all: Vec<String>) -> (r: Vec<String>)
    ensures
        text::string_views(r@) == spec_quota_clear_targets(text::opt_string_view(primary), text::string_views(all@)),
{
    let ghost pv = text::opt_string_view(primary);
    let mut out: Vec<String> = Vec::new();
    match primary {
        Some(p) => {
            out.push(p);
        },
        None => {},
    }
    let ghost start = text::string_views(out@);
    assert(start =~= match pv {
        Some(p) => seq![p],
        None => Seq::<Seq<char>>::empty(),
    });
    let n = all.len();
    let ghost av = text::string_views(all@);
    assert(av.subrange(0, n as int) =~= av);
    let mut i: usize = 0;
    while i < n
        invariant
            n == all@.len(),
            i <= n,
            av == text::string_views(all@),
            spec_quota_clear_targets(pv, av) == add_missing(text::string_views(out@), av.subrange(i as int, n as int)),
        decreases n - i,
    {
        let ghost rest = av.subrange(i as int, n as int);
        proof {
            assert(rest[0] == all@[i as int]@);
            assert(rest.drop_first() =~= av.subrange(i + 1, n as int));
        }
        let m = text::chars_of(all[i].as_str());
        if !contains_string(&out, &m) {
            let ghost before = text::string_views(out@);
            out.push(text::string_of(&m));
            assert(text::string_views(out@) =~= before.push(m@));
        }
        i = i + 1;
    }
    out
}

/// A line of the mount table describes an ext4 project-quota mount.
pub open spec fn line_is_pquota(l: Seq<char>) -> bool {
    text::words(l).len() >= 3 && is_pquota_ext4(text::words(l))
}

proof fn lemma_push_new_no_duplicates(out: Seq<Seq<char>>, x: Seq<char>)
    requires
        out.no_duplicates(),
        !out.contains(x),
    ensures
        out.push(x).no_duplicates(),
{
    assert forall|i: int, j: int| 0 <= i < j < out.push(x).len() implies out.push(x)[i] != out.push(x)[j] by {
        if j == out.len() {
            assert(out[i] == out.push(x)[i]);
        }
    }
}

proof fn lemma_add_missing(out: Seq<Seq<char>>, xs: Seq<Seq<char>>)
    ensures
        forall|m: Seq<char>|
            #[trigger] add_missing(out, xs).contains(m) <==> (out.contains(m) || xs.contains(m)),
        out.no_duplicates() ==> add_missing(out, xs).no_duplicates(),
        add_missing(out, xs).len() >= out.len(),
        forall|i: int| 0 <= i < out.len() ==> add_missing(out, xs)[i] == out[i],
    decreases xs.len(),
{
    if xs.len() > 0 {
        let x = xs[0];
        let next = if out.contains(x) {
            out
        } else {
            out.push(x)
        };
        lemma_add_missing(next, xs.drop_first());
        if !out.contains(x) && out.no_duplicates() {
            lemma_push_new_no_duplicates(out, x);
        }
        assert forall|i: int| 0 <= i < out.len() implies add_missing(out, xs)[i] == out[i] by {
            assert(next[i] == out[i]);
        }
        assert forall|m: Seq<char>|
            #[trigger] add_missing(out, xs).contains(m) <==> (out.contains(m) || xs.contains(m)) by {
            if next.contains(m) {
                let k = choose|k: int| 0 <= k < next.len() && next[k] == m;
                if k < out.len() {
                    assert(out[k] == m);
                } else {
                    assert(xs[0] == m);
                }
            }
            if out.contains(m) {
                let k = choose|k: int| 0 <= k < out.len() && out[k] == m;
                assert(next[k] == m);
            }
            if xs.contains(m) {
                let k = choose|k: int| 0 <= k < xs.len() && xs[k] == m;
                if k == 0 {
                    if !out.contains(x) {
                        assert(next[out.len() as int] == m);
                    }
                } else {
                    assert(xs.drop_first()[k - 1] == m);
                }
            }
            if xs.drop_first().contains(m) {
                let k = choose|k: int| 0 <= k < xs.drop_first().len() && xs.drop_first()[k] == m;
                assert(xs[k + 1] == m);
            }
        }
    }
}

/// The mounts on which a project quota is cleared: the primary mount first when there
/// is one, then the other listed mounts, each mount once.
pub proof fn lemma_quota_clear_targets_cover(primary: Option<Seq<char>>, all: Seq<Seq<char>>)
    ensures
        forall|m: Seq<char>|
            #[trigger] spec_quota_clear_targets(primary, all).contains(m) <==> (primary == Some(m)
                || all.contains(m)),
        spec_quota_clear_targets(primary, all).no_duplicates(),
        primary matches Some(p) ==> spec_quota_clear_targets(primary, all).len() > 0
            && spec_quota_clear_targets(primary, all)[0] == p,
{
    let start = match primary {
        Some(p) => seq![p],
        None => Seq::<Seq<char>>::empty(),
    };
    lemma_add_missing(start, all);
    if let Some(p) = primary {
        assert(start[0] == p);
        assert(add_missing(start, all)[0] == start[0]);
    }
    assert forall|m: Seq<char>| start.contains(m) <==> primary == Some(m) by {
        if start.contains(m) {
            let k = choose|k: int| 0 <= k < start.len() && start[k] == m;
        }
        if primary == Some(m) {
            assert(start[0] == m);
        }
    }
}

proof fn lemma_collect_pquota_mounts(ls: Seq<Seq<char>>, out: Seq<Seq<char>>)
    ensures
        out.no_duplicates() ==> collect_pquota_mounts(ls, out).no_duplicates(),
        forall|m: Seq<char>|
            #[trigger] collect_pquota_mounts(ls, out).contains(m) <==> (out.contains(m) || exists|i: int|
                0 <= i < ls.len() && line_is_pquota(ls[i]) && text::words(ls[i])[1] == m),
    decreases ls.len(),
{
    if ls.len() > 0 {
        let w = text::words(ls[0]);
        let next = if w.len() >= 3 && is_pquota_ext4(w) && !out.contains(w[1]) {
            out.push(w[1])
        } else {
            out
        };
        lemma_collect_pquota_mounts(ls.drop_first(), next);
        if w.len() >= 3 && is_pquota_ext4(w) && !out.contains(w[1]) && out.no_duplicates() {
            lemma_push_new_no_duplicates(out, w[1]);
        }
        let rest = ls.drop_first();
        assert(collect_pquota_mounts(ls, out) == collect_pquota_mounts(rest, next));
        assert(next.contains(w[1]) || !line_is_pquota(ls[0])) by {
            if line_is_pquota(ls[0]) && !out.contains(w[1]) {
                assert(next[out.len() as int] == w[1]);
            }
        }
        assert forall|m: Seq<char>|
            #[trigger] collect_pquota_mounts(ls, out).contains(m) <==> (out.contains(m) || exists|i: int|
                0 <= i < ls.len() && line_is_pquota(ls[i]) && text::words(ls[i])[1] == m) by {
            if next.contains(m) {
                let k = choose|k: int| 0 <= k < next.len() && next[k] == m;
                if k < out.len() {
                    assert(out[k] == m);
                } else {
                    assert(line_is_pquota(ls[0]) && text::words(ls[0])[1] == m);
                }
            }
            if out.contains(m) {
                let k = choose|k: int| 0 <= k < out.len() && out[k] == m;
                assert(next[k] == m);
            }
            if exists|i: int| 0 <= i < rest.len() && line_is_pquota(rest[i]) && text::words(rest[i])[1] == m {
                let i = choose|i: int| 0 <= i < rest.len() && line_is_pquota(rest[i]) && text::words(rest[i])[1] == m;
                assert(ls[i + 1] == rest[i]);
            }
            if exists|i: int| 0 <= i < ls.len() && line_is_pquota(ls[i]) && text::words(ls[i])[1] == m {
                let i = choose|i: int| 0 <= i < ls.len() && line_is_pquota(ls[i]) && text::words(ls[i])[1] == m;
                if i == 0 {
                    assert(next.contains(m));
                } else {
                    assert(rest[i - 1] == ls[i]);
                }
            }
        }
    }
}

/// The listed project-quota mounts are distinct, and they are exactly the mount points
/// of the table's ext4 lines with project quota.
pub proof fn lemma_pquota_mount_list_exact(mounts: Seq<char>)
    ensures
        spec_ext4_pquota_mounts(mounts).no_duplicates(),
        forall|m: Seq<char>|
            #[trigger] spec_ext4_pquota_mounts(mounts).contains(m) <==> exists|i: int|
                0 <= i < text::lines(mounts).len() && line_is_pquota(text::lines(mounts)[i])
                    && text::words(text::lines(mounts)[i])[1] == m,
{
    lemma_collect_pquota_mounts(text::lines(mounts), seq![]);
}

/// The fields of a mount-table line name an ext4 filesystem (third field `ext4`) whose
/// options (fourth field, comma-separated) include `prjquota` or `prjjquota`.
pub open spec fn ext4_project_quota_fields(w: Seq<Seq<char>>) -> bool {
    &&& w.len() >= 3
    &&& w[2] == "ext4"@
    &&& w.len() > 3
    &&& exists|j: int|
        0 <= j < text::split_char(w[3], ',').len() && (text::split_char(w[3], ',')[j] == "prjquota"@
            || text::split_char(w[3], ',')[j] == "prjjquota"@)
}

/// A line qualifies exactly when its filesystem type is `ext4` and its options include
/// `prjquota` or `prjjquota`; a line of any other type (XFS, for one) never does.
pub proof fn lemma_qualifying_line_fields(w: Seq<Seq<char>>)
    ensures
        w.len() >= 3 && is_pquota_ext4(w) <==> ext4_project_quota_fields(w),
        w.len() >= 3 && w[2] != "ext4"@ ==> !is_pquota_ext4(w),
{
    if w.len() >= 3 && w.len() <= 3 {
        reveal_strlit("");
        assert(text::split_char(""@, ',') =~= seq![""@]) by {
            text::lemma_find_char(""@, ',');
        }
        reveal_strlit("prjquota");
        reveal_strlit("prjjquota");
        if has_project_quota(mount_options(w)) {
            let j = choose|j: int|
                0 <= j < text::split_char(mount_options(w), ',').len() && (text::split_char(
                    mount_options(w),
                    ',',
                )[j] == "prjquota"@ || text::split_char(mount_options(w), ',')[j] == "prjjquota"@);
            assert(j == 0);
            assert(""@.len() == 0);
        }
    }
}

/// The mount found for a path comes from a line of the table whose filesystem type is
/// `ext4`, whose options include `prjquota` or `prjjquota`, and whose mount point holds
/// the path; so does every listed project-quota mount.
pub proof fn lemma_pquota_mounts_are_ext4(mounts: Seq<char>, a: Seq<char>)
    ensures
        spec_ext4_pquota_mount(mounts, a) matches Some(m) ==> exists|i: int|
            0 <= i < text::lines(mounts).len() && ext4_project_quota_fields(
                #[trigger] text::words(text::lines(mounts)[i]),
            ) && text::words(text::lines(mounts)[i])[1] == m && mount_contains(m, a),
        forall|m: Seq<char>|
            #[trigger] spec_ext4_pquota_mounts(mounts).contains(m) ==> exists|i: int|
                0 <= i < text::lines(mounts).len() && ext4_project_quota_fields(
                    #[trigger] text::words(text::lines(mounts)[i]),
                ) && text::words(text::lines(mounts)[i])[1] == m,
{
    let ls = text::lines(mounts);
    if let Some(m) = spec_ext4_pquota_mount(mounts, a) {
        lemma_pquota_mount_is_longest(mounts, a);
        let i = choose|i: int| 0 <= i < ls.len() && line_qualifies(ls[i], a) && text::words(ls[i])[1] == m;
        lemma_qualifying_line_fields(text::words(ls[i]));
    }
    lemma_pquota_mount_list_exact(mounts);
    assert forall|m: Seq<char>|
        #[trigger] spec_ext4_pquota_mounts(mounts).contains(m) implies exists|i: int|
            0 <= i < ls.len() && ext4_project_quota_fields(#[trigger] text::words(ls[i]))
                && text::words(ls[i])[1] == m by {
        let i = choose|i: int| 0 <= i < ls.len() && line_is_pquota(ls[i]) && text::words(ls[i])[1] == m;
        lemma_qualifying_line_fields(text::words(ls[i]));
    }
}

/// Size units: `k` and `kb` are 1024 bytes, `m` and `mb` 1024 `k`, `g` and `gb` 1024 `m`
/// (surrounding whitespace ignored); no unit is one byte; any other unit is not a size.
pub proof fn lemma_size_units(u: Seq<char>)
    ensures
        (text::trim(u) == "k"@ || text::trim(u) == "kb"@) ==> spec_size_unit_multiplier(u) == Some(1024u64),
        (text::trim(u) == "m"@ || text::trim(u) == "mb"@) ==> spec_size_unit_multiplier(u) == Some(
            (1024 * 1024) as u64,
        ),
        (text::trim(u) == "g"@ || text::trim(u) == "gb"@) ==> spec_size_unit_multiplier(u) == Some(
            (1024 * 1024 * 1024) as u64,
        ),
        text::trim(u).len() == 0 ==> spec_size_unit_multiplier(u) == Some(1u64),
        spec_size_unit_multiplier(u) is Some ==> (text::trim(u).len() == 0 || text::trim(u) == "k"@
            || text::trim(u) == "kb"@ || text::trim(u) == "m"@ || text::trim(u) == "mb"@ || text::trim(u)
            == "g"@ || text::trim(u) == "gb"@),
{
    reveal_strlit("k");
    reveal_strlit("kb");
    reveal_strlit("m");
    reveal_strlit("mb");
    reveal_strlit("g");
    reveal_strlit("gb");
    assert("k"@[0] != "g"@[0] && "k"@[0] != "m"@[0] && "m"@[0] != "g"@[0]);
    assert("kb"@[0] != "gb"@[0] && "kb"@[0] != "mb"@[0] && "mb"@[0] != "gb"@[0]);
    assert("k"@.len() != "gb"@.len() && "k"@.len() != "mb"@.len() && "m"@.len() != "gb"@.len());
    assert("kb"@.len() != "g"@.len() && "kb"@.len() != "m"@.len() && "mb"@.len() != "g"@.len());
}

// ───────────────────────── quota commands ─────────────────────────

/// The commands that put an ext4 project quota on a volume.
pub struct QuotaCommands {
    /// Arguments of `chattr`, which tags the volume tree with the project id.
    pub chattr_args: Vec<String>,
    /// Arguments of `setquota`, which sets the hard block limit.
    pub setquota_args: Vec<String>,
    /// The hard block limit in KiB.
    pub limit_kb: u64,
}

/// The hard limit in KiB for a limit in bytes, rounded up.
pub open spec fn limit_kib(limit_bytes: nat) -> nat {
    ((limit_bytes + 1023) / 1024) as nat
}

/// `chattr +P -p <project> <path>`.
pub open spec fn spec_chattr_args(path: Seq<char>, project_id: u32) -> Seq<Seq<char>> {
    seq!["+P"@, "-p"@, text::decimal(project_id as nat), path]
}

/// `setquota -P <project> 0 <limit_kb> 0 0 <mount>`.
pub open spec fn spec_setquota_args(mount: Seq<char>, project_id: u32, limit_kb: nat) -> Seq<Seq<char>> {
    seq!["-P"@, text::decimal(project_id as nat), "0"@, text::decimal(limit_kb), "0"@, "0"@, mount]
}

/// `setquota -P <project> 0 0 0 0 <mount>`, which clears the project's limits.
pub open spec fn spec_setquota_clear_args(mount: Seq<char>, project_id: u32) -> Seq<Seq<char>> {
    seq!["-P"@, text::decimal(project_id as nat), "0"@, "0"@, "0"@, "0"@, mount]
}

/// The commands that limit the volume at `volume_path` (on the project-quota mount
/// `mount`) to `limit_bytes` under project `project_id`.
pub fn ext4_quota_commands(volume_path: &str, mount: &str, project_id: u32, limit_bytes: u64) -> (r:
    QuotaCommands)
    requires
        limit_bytes <= u64::MAX - 1023,
    ensures
        r.limit_kb == limit_kib(limit_bytes as nat),
        text::string_views(r.chattr_args@) == spec_chattr_args(volume_path@, project_id),
        text::string_views(r.setquota_args@) == spec_setquota_args(mount@, project_id, r.limit_kb as nat),
{
    let limit_kb = (limit_bytes + 1023) / 1024;
    let mut chattr_args: Vec<String> = Vec::new();
    chattr_args.push(String::from_str("+P"));
    chattr_args.push(String::from_str("-p"));
    chattr_args.push(text::u64_to_string(project_id as u64));
    chattr_args.push(String::from_str(volume_path));
    assert(text::string_views(chattr_args@) =~= spec_chattr_args(volume_path@, project_id));
    let mut setquota_args: Vec<String> = Vec::new();
    setquota_args.push(String::from_str("-P"));
    setquota_args.push(text::u64_to_string(project_id as u64));
    setquota_args.push(String::from_str("0"));
    setquota_args.push(text::u64_to_string(limit_kb));
    setquota_args.push(String::from_str("0"));
    setquota_args.push(String::from_str("0"));
    setquota_args.push(String::from_str(mount));
    assert(text::string_views(setquota_args@) =~= spec_setquota_args(mount@, project_id, limit_kb as nat));
    QuotaCommands { chattr_args, setquota_args, limit_kb }
}

/// The error of a failed `chattr` that tags `path` with `project_id`, with the command's
/// trimmed error output.
pub open spec fn spec_chattr_failure(project_id: u32, path: Seq<char>, stderr: Seq<char>) -> Seq<char> {
    "chattr +P -p "@ + text::decimal(project_id as nat) + " "@ + path + ": "@ + text::trim(stderr)
}

/// The error of a failed `chattr`.
pub fn chattr_failure(project_id: u32, path: &str, stderr: &str) -> (r: String)
    ensures
        r@ == spec_chattr_failure(project_id, path@, stderr@),
{
    let mut r = String::from_str("chattr +P -p ");
    text::push_decimal(&mut r, project_id as u64);
    r.append(" ");
    r.append(path);
    r.append(": ");
    let e = text::trimmed_string(stderr);
    r.append(e.as_str());
    r
}

/// The error of a failed `setquota` that limits `project_id` to `limit_kb` on `mount`,
/// with the command's trimmed error output.
pub open spec fn spec_setquota_failure(project_id: u32, limit_kb: u64, mount: Seq<char>, stderr: Seq<char>) -> Seq<char> {
    "setquota -P "@ + text::decimal(project_id as nat) + " 0 "@ + text::decimal(limit_kb as nat) + " 0 0 "@
        + mount + ": "@ + text::trim(stderr)
}

/// The error of a failed `setquota`.
pub fn setquota_failure(project_id: u32, limit_kb: u64, mount: &str, stderr: &str) -> (r: String)
    ensures
        r@ == spec_setquota_failure(project_id, limit_kb, mount@, stderr@),
{
    let mut r = String::from_str("setquota -P ");
    text::push_decimal(&mut r, project_id as u64);
    r.append(" 0 ");
    text::push_decimal(&mut r, limit_kb);
    r.append(" 0 0 ");
    r.append(mount);
    r.append(": ");
    let e = text::trimmed_string(stderr);
    r.append(e.as_str());
    r
}

/// The `setquota` arguments that clear project `project_id` on `mount`.
pub fn setquota_clear_args(mount: &str, project_id: u32) -> (r: Vec<String>)
    ensures
        text::string_views(r@) == spec_setquota_clear_args(mount@, project_id),
{
    let mut r: Vec<String> = Vec::new();
    r.push(String::from_str("-P"));
    r.push(text::u64_to_string(project_id as u64));
    r.push(String::from_str("0"));
    r.push(String::from_str("0"));
    r.push(String::from_str("0"));
    r.push(String::from_str("0"));
    r.push(String::from_str(mount));
    assert(text::string_views(r@) =~= spec_setquota_clear_args(mount@, project_id));
    r
}

} // verus!
