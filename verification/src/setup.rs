//! The setup wizard's decisions and generated files: prompts and answers, container
//! import selection, the `.env` file with its timestamp, the OpenRC service and its
//! launcher script, and the nginx reverse-proxy configuration.
use vstd::prelude::*;
use crate::text;
use crate::host;

verus! {

// ───────────────────────── prompts ─────────────────────────

/// The text of a prompt: the question in blue, with ` [default]` when there is one.
pub open spec fn spec_prompt_line(question: Seq<char>, default: Option<Seq<char>>) -> Seq<char> {
    "\x1b[34m"@ + question + (match default {
        Some(d) => " ["@ + d + "]"@,
        None => ""@,
    }) + "\x1b[0m: "@
}

/// The text of a prompt.
pub fn prompt_line(question: &str, default: Option<&str>) -> (r: String)
    ensures
        r@ == spec_prompt_line(question@, crate::servers::opt_str_view(default)),
{
    let mut r = String::from_str("\x1b[34m");
    r.append(question);
    match default {
        Some(d) => {
            r.append(" [");
            r.append(d);
            r.append("]");
        },
        None => {
            r.append("");
        },
    }
    r.append("\x1b[0m: ");
    r
}

/// The answer to a prompt: the line typed, or the default (or nothing) when the line is
/// empty.
pub fn prompt_answer(line: String, default: Option<&str>) -> (r: String)
    ensures
        r@ == (if line@.len() == 0 {
            match default {
                Some(d) => d@,
                None => Seq::<char>::empty(),
            }
        } else {
            line@
        }),
{
    if line.as_str().unicode_len() == 0 {
        match default {
            Some(d) => String::from_str(d),
            None => String::new(),
        }
    } else {
        line
    }
}

/// The text of a yes/no prompt, showing which answer Enter gives.
pub fn yes_no_prompt_line(question: &str, default_yes: bool) -> (r: String)
    ensures
        r@ == "\x1b[33m"@ + question@ + " ["@ + (if default_yes { "Y/n"@ } else { "y/N"@ }) + "]\x1b[0m: "@,
{
    let mut r = String::from_str("\x1b[33m");
    r.append(question);
    r.append(" [");
    r.append(if default_yes { "Y/n" } else { "y/N" });
    r.append("]\x1b[0m: ");
    r
}

/// The answer given by an already lowercased line: the default when it is empty,
/// otherwise whether it starts with `y`.
pub open spec fn spec_lowered_answer(l: Seq<char>, default_yes: bool) -> bool {
    if l.len() == 0 {
        default_yes
    } else {
        l[0] == 'y'
    }
}

/// The answer to a yes/no prompt: the answer of the lowercased line.
pub open spec fn spec_yes_no_answer(line: Seq<char>, default_yes: bool) -> bool {
    spec_lowered_answer(text::unicode_lowercase(line), default_yes)
}

/// The answer given by an already lowercased line.
pub fn lowered_answer(lower: &str, default_yes: bool) -> (r: bool)
    ensures
        r == spec_lowered_answer(lower@, default_yes),
{
    let l = text::chars_of(lower);
    if l.len() == 0 {
        default_yes
    } else {
        l[0] == 'y'
    }
}

/// The answer to a yes/no prompt.
pub fn yes_no_answer(line: &str, default_yes: bool) -> (r: bool)
    ensures
        r == spec_yes_no_answer(line@, default_yes),
{
    let lower = text::to_lowercase(line);
    lowered_answer(lower.as_str(), default_yes)
}

/// The text of a password prompt.
pub fn password_prompt_line(question: &str) -> (r: String)
    ensures
        r@ == "\x1b[34m"@ + question@ + "\x1b[0m: "@,
{
    let mut r = String::from_str("\x1b[34m");
    r.append(question);
    r.append("\x1b[0m: ");
    r
}

/// `s` without its trailing newlines and carriage returns.
pub open spec fn strip_line_ending(s: Seq<char>) -> Seq<char>
    decreases s.len(),
{
    if s.len() > 0 && (s.last() == '\n' || s.last() == '\r') {
        strip_line_ending(s.drop_last())
    } else {
        s
    }
}

/// A line read from the terminal without its line ending.
pub fn line_without_ending(line: &str) -> (r: String)
    ensures
        r@ == strip_line_ending(line@),
{
    let v = text::chars_of(line);
    let mut end = v.len();
    assert(v@.subrange(0, v@.len() as int) =~= v@);
    while end > 0 && (v[end - 1] == '\n' || v[end - 1] == '\r')
        invariant
            end <= v@.len(),
            strip_line_ending(v@) == strip_line_ending(v@.subrange(0, end as int)),
        decreases end,
    {
        proof {
            assert(v@.subrange(0, end as int).drop_last() =~= v@.subrange(0, end - 1));
            assert(v@.subrange(0, end as int).last() == v@[end - 1]);
        }
        end = end - 1;
    }
    proof {
        if end > 0 {
            assert(v@.subrange(0, end as int).last() == v@[end - 1]);
        }
    }
    text::string_of_range(&v, 0, end)
}

// ───────────────────────── command line ─────────────────────────

/// The wizard's options.
pub struct WizardArgs {
    /// `--reset`: wipe the database and `.env` without asking.
    pub reset: bool,
    /// `--non-interactive`: read the administrator from the environment.
    pub non_interactive: bool,
    /// `--help` or `-h`: print the usage and stop.
    pub help: bool,
}

/// Whether some argument equals `flag`.
fn has_arg(args: &Vec<String>, flag: &str) -> (r: bool)
    ensures
        r == text::string_views(args@).contains(flag@),
{
    let mut i: usize = 0;
    while i < args.len()
        invariant
            i <= args@.len(),
            forall|j: int| 0 <= j < i ==> args@[j]@ != flag@,
        decreases args@.len() - i,
    {
        if text::str_eq(args[i].as_str(), flag) {
            assert(text::string_views(args@)[i as int] == flag@);
            return true;
        }
        i = i + 1;
    }
    proof {
        if text::string_views(args@).contains(flag@) {
            let j = choose|j: int| 0 <= j < args@.len() && text::string_views(args@)[j] == flag@;
            assert(args@[j]@ == flag@);
        }
    }
    false
}

/// The options given by the command-line arguments `args` (the program name included):
/// each flag is on when some argument equals it.
pub fn wizard_args(args: &Vec<String>) -> (r: WizardArgs)
    ensures
        r.reset == text::string_views(args@).contains("--reset"@),
        r.non_interactive == text::string_views(args@).contains("--non-interactive"@),
        r.help == (text::string_views(args@).contains("--help"@) || text::string_views(args@).contains("-h"@)),
{
    WizardArgs {
        reset: has_arg(args, "--reset"),
        non_interactive: has_arg(args, "--non-interactive"),
        help: has_arg(args, "--help") || has_arg(args, "-h"),
    }
}

// ───────────────────────── identity ─────────────────────────

/// The output of `id -u` names root.
pub fn is_root_id_output(stdout: &str) -> (r: bool)
    ensures
        r == (text::trim(stdout@) == "0"@),
{
    let t = text::trim_str(stdout);
    text::chars_eq_str(&t, "0")
}

/// The user who ran the wizard: `SUDO_USER` when set, else the trimmed output of
/// `logname` when it could be run, else `root`.
pub fn real_user(sudo_user: Option<String>, logname_stdout: Option<String>) -> (r: String)
    ensures
        r@ == (match sudo_user {
            Some(u) => u@,
            None => match logname_stdout {
                Some(o) => text::trim(o@),
                None => "root"@,
            },
        }),
{
    match sudo_user {
        Some(u) => u,
        None => match logname_stdout {
            Some(o) => text::trimmed_string(o.as_str()),
            None => String::from_str("root"),
        },
    }
}

/// `user:user`, the owner argument of `chown`.
pub fn owner_arg(user: &str) -> (r: String)
    ensures
        r@ == user@ + ":"@ + user@,
{
    let mut r = String::from_str(user);
    r.append(":");
    r.append(user);
    r
}

// ───────────────────────── packages and Docker ─────────────────────────

/// The arguments of `apk add --no-cache <packages>`.
pub fn apk_add_args(packages: &[&str]) -> (r: Vec<String>)
    ensures
        text::string_views(r@) == seq!["add"@, "--no-cache"@] + host::strs_view(packages@),
{
    let mut r: Vec<String> = Vec::new();
    r.push(String::from_str("add"));
    r.push(String::from_str("--no-cache"));
    let ghost start = text::string_views(r@);
    assert(start =~= seq!["add"@, "--no-cache"@]);
    let mut i: usize = 0;
    while i < packages.len()
        invariant
            i <= packages@.len(),
            text::string_views(r@) == start + host::strs_view(packages@).subrange(0, i as int),
        decreases packages@.len() - i,
    {
        let ghost before = text::string_views(r@);
        r.push(String::from_str(packages[i]));
        proof {
            assert(text::string_views(r@) =~= before.push(packages@[i as int]@));
            assert(host::strs_view(packages@).subrange(0, i + 1) =~= host::strs_view(packages@).subrange(0, i as int).push(packages@[i as int]@));
        }
        i = i + 1;
    }
    assert(host::strs_view(packages@).subrange(0, packages@.len() as int) =~= host::strs_view(packages@));
    r
}

/// The Docker packages to install, and the smaller set to retry with when the first
/// fails.
pub fn docker_packages() -> (r: (Vec<&'static str>, Vec<&'static str>))
    ensures
        host::strs_view(r.0@) == seq!["docker"@, "docker-cli-compose"@],
        host::strs_view(r.1@) == seq!["docker"@],
{
    let a = vec!["docker", "docker-cli-compose"];
    let b = vec!["docker"];
    assert(host::strs_view(a@) =~= seq!["docker"@, "docker-cli-compose"@]);
    assert(host::strs_view(b@) =~= seq!["docker"@]);
    (a, b)
}

/// The packages to try after the first Docker install attempt: none when it succeeded,
/// the core `docker` package alone when it failed.
pub fn docker_retry_packages(first_attempt_ok: bool) -> (r: Option<Vec<&'static str>>)
    ensures
        first_attempt_ok ==> r is None,
        !first_attempt_ok ==> (r matches Some(p) && host::strs_view(p@) == seq!["docker"@]),
{
    if first_attempt_ok {
        None
    } else {
        let p = vec!["docker"];
        assert(host::strs_view(p@) =~= seq!["docker"@]);
        Some(p)
    }
}

/// The arguments of `addgroup <user> docker`, none for root (who needs no group).
pub fn docker_group_args(real_user: &str) -> (r: Option<Vec<String>>)
    ensures
        real_user@ == "root"@ ==> r is None,
        real_user@ != "root"@ ==> (r matches Some(a) && text::string_views(a@) == seq![real_user@, "docker"@]),
{
    if text::str_eq(real_user, "root") {
        return None;
    }
    let mut a: Vec<String> = Vec::new();
    a.push(String::from_str(real_user));
    a.push(String::from_str("docker"));
    assert(text::string_views(a@) =~= seq![real_user@, "docker"@]);
    Some(a)
}

/// The files that a reset removes from the working directory.
pub fn reset_files() -> (r: Vec<&'static str>)
    ensures
        host::strs_view(r@) == seq!["yunexal.db"@, "yunexal.db-shm"@, "yunexal.db-wal"@, ".env"@],
{
    let r = vec!["yunexal.db", "yunexal.db-shm", "yunexal.db-wal", ".env"];
    assert(host::strs_view(r@) =~= seq!["yunexal.db"@, "yunexal.db-shm"@, "yunexal.db-wal"@, ".env"@]);
    r
}

/// The database files whose owner is fixed after the admin user is created.
pub fn database_files() -> (r: Vec<&'static str>)
    ensures
        host::strs_view(r@) == seq!["yunexal.db"@, "yunexal.db-shm"@, "yunexal.db-wal"@],
{
    let r = vec!["yunexal.db", "yunexal.db-shm", "yunexal.db-wal"];
    assert(host::strs_view(r@) =~= seq!["yunexal.db"@, "yunexal.db-shm"@, "yunexal.db-wal"@]);
    r
}

// ───────────────────────── admin user ─────────────────────────

/// A password is long enough: at least 8 bytes.
pub fn password_long_enough(p: &str) -> (r: bool)
    ensures
        r == (crate::quota::utf8_len(p@) >= 8),
{
    let v = text::chars_of(p);
    crate::quota::utf8_len_exec(&v) >= 8
}

// ───────────────────────── secrets ─────────────────────────

/// Lower-case hexadecimal digit of `d` (below 16).
pub open spec fn hex_lower_digit(d: u8) -> char {
    if d < 10 {
        ((48 + d) as u8) as char
    } else {
        ((87 + d) as u8) as char
    }
}

/// Bytes written as lower-case hexadecimal, two digits each.
pub open spec fn hex_lower(bytes: Seq<u8>) -> Seq<char>
    decreases bytes.len(),
{
    if bytes.len() == 0 {
        seq![]
    } else {
        hex_lower(bytes.drop_last()) + seq![hex_lower_digit(bytes.last() / 16), hex_lower_digit(bytes.last() % 16)]
    }
}

fn hex_digit_char(d: u8) -> (r: char)
    requires
        d < 16,
    ensures
        r == hex_lower_digit(d),
{
    if d < 10 {
        let b: u8 = 48 + d;
        b as char
    } else {
        let b: u8 = 87 + d;
        b as char
    }
}

/// The secret written for `bytes`: their lower-case hexadecimal form.
pub fn hex_secret(bytes: &[u8]) -> (r: String)
    ensures
        r@ == hex_lower(bytes@),
{
    let mut r = String::new();
    let mut i: usize = 0;
    assert(bytes@.subrange(0, 0) =~= Seq::<u8>::empty());
    while i < bytes.len()
        invariant
            i <= bytes@.len(),
            r@ == hex_lower(bytes@.subrange(0, i as int)),
        decreases bytes@.len() - i,
    {
        let b = bytes[i];
        let ghost before = r@;
        text::push_char(&mut r, hex_digit_char(b / 16));
        text::push_char(&mut r, hex_digit_char(b % 16));
        proof {
            assert(bytes@.subrange(0, i + 1).drop_last() =~= bytes@.subrange(0, i as int));
            assert(bytes@.subrange(0, i + 1).last() == b);
            assert(r@ =~= before + seq![hex_lower_digit(b / 16), hex_lower_digit(b % 16)]);
        }
        i = i + 1;
    }
    assert(bytes@.subrange(0, bytes@.len() as int) =~= bytes@);
    r
}

// ───────────────────────── the .env file ─────────────────────────

/// A leap year of the proleptic Gregorian calendar.
pub open spec fn is_leap_year(y: int) -> bool {
    y % 4 == 0 && (y % 100 != 0 || y % 400 == 0)
}

/// The number of days of month `m` (1 to 12) of year `y`.
pub open spec fn days_in_month(y: int, m: int) -> int {
    if m == 2 {
        if is_leap_year(y) {
            29
        } else {
            28
        }
    } else if m == 4 || m == 6 || m == 9 || m == 11 {
        30
    } else {
        31
    }
}

/// The day after the date `(year, month, day)`.
pub open spec fn next_date(date: (int, int, int)) -> (int, int, int) {
    let (y, m, d) = date;
    if d < days_in_month(y, m) {
        (y, m, d + 1)
    } else if m < 12 {
        (y, m + 1, 1)
    } else {
        (y + 1, 1, 1)
    }
}

/// The date `(year, month, day)` of the day `n` days after 1970-01-01.
pub open spec fn date_after_epoch(n: nat) -> (int, int, int)
    decreases n,
{
    if n == 0 {
        (1970, 1, 1)
    } else {
        next_date(date_after_epoch((n - 1) as nat))
    }
}

// The conversion below counts in eras of 400 years (146097 days) that start on
// March 1, so that a leap day is the last day of its year: `doe` is the day of the era,
// `yoe` the year of the era, `doy` the day of that March-based year, `mp` its month
// from March (0) to February (11).

/// Days of the era before its March-based year `y`.
spec fn days_before_year(y: int) -> int {
    365 * y + y / 4 - y / 100
}

spec fn yoe_of(doe: int) -> int {
    (doe - doe / 1460 + doe / 36524 - doe / 146096) / 365
}

/// Length of the March-based year `y` of an era: it ends with February of year `y + 1`.
spec fn march_year_len(y: int) -> int {
    if is_leap_year(y + 1) {
        366
    } else {
        365
    }
}

spec fn mp_of(doy: int) -> int {
    (5 * doy + 2) / 153
}

spec fn dd_of(doy: int) -> int {
    doy - (153 * mp_of(doy) + 2) / 5 + 1
}

spec fn month_of(mp: int) -> int {
    if mp < 10 {
        mp + 3
    } else {
        mp - 9
    }
}

/// Length of the month `mp` counted from March; February as in a leap year.
spec fn march_month_len(mp: int) -> int {
    if mp == 11 {
        29
    } else if mp == 1 || mp == 3 || mp == 6 || mp == 8 {
        30
    } else {
        31
    }
}

/// The date of the day `doe` of the era `era`.
spec fn civil_in_era(era: int, doe: int) -> (int, int, int) {
    let y = yoe_of(doe);
    let doy = doe - days_before_year(y);
    let mo = month_of(mp_of(doy));
    (y + era * 400 + if mo <= 2 {
        1int
    } else {
        0int
    }, mo, dd_of(doy))
}

/// The date of the day `days` after 1970-01-01 as the era arithmetic computes it.
spec fn era_date(days: nat) -> (int, int, int) {
    let z = days + 719468;
    let era = z / 146097;
    civil_in_era(era as int, z - era * 146097)
}

proof fn lemma_year_bits(doe: u32)
    requires
        doe <= 146096,
    ensures
        ({
            let y = (doe - doe / 1460 + doe / 36524 - doe / 146096) / 365;
            let y1 = y + 1;
            &&& y <= 399
            &&& 365 * y + y / 4 - y / 100 <= doe
            &&& (doe < 365 * y1 + y1 / 4 - y1 / 100 || (y == 399 && doe == 146096))
        }),
{
    assert({
        let y = (doe - doe / 1460 + doe / 36524 - doe / 146096) / 365;
        let y1 = (y + 1) as u32;
        &&& y <= 399
        &&& 365 * y + y / 4 - y / 100 <= doe
        &&& (doe < 365 * y1 + y1 / 4 - y1 / 100 || (y == 399 && doe == 146096))
    }) by (bit_vector)
        requires
            doe <= 146096,
    ;
}

/// The year of the era holds its day: it starts at or before the day and the next
/// year starts after it (the era's last day, a leap day, closes year 399).
proof fn lemma_year_of(doe: int)
    requires
        0 <= doe <= 146096,
    ensures
        0 <= yoe_of(doe) <= 399,
        days_before_year(yoe_of(doe)) <= doe,
        doe < days_before_year(yoe_of(doe) + 1) || (yoe_of(doe) == 399 && doe == 146096),
{
    lemma_year_bits(doe as u32);
}

proof fn lemma_days_before_year_step(y: int)
    requires
        0 <= y <= 399,
    ensures
        days_before_year(y + 1) - days_before_year(y) == (if is_leap_year(y + 1) && y < 399 {
            366int
        } else {
            365int
        }),
{
}

proof fn lemma_days_before_year_mono(a: int, b: int)
    requires
        0 <= a < b,
    ensures
        days_before_year(a) + 365 <= days_before_year(b),
{
}

proof fn lemma_doy_range(doe: int)
    requires
        0 <= doe <= 146096,
    ensures
        0 <= doe - days_before_year(yoe_of(doe)) < march_year_len(yoe_of(doe)),
{
    lemma_year_of(doe);
    lemma_days_before_year_step(yoe_of(doe));
}

/// The next day of the era is the next day of the same year, or the first day of the
/// next year after the last day of this one.
proof fn lemma_year_step(doe: int)
    requires
        0 <= doe < 146096,
    ensures
        ({
            let y = yoe_of(doe);
            let d = doe - days_before_year(y);
            let y2 = yoe_of(doe + 1);
            let d2 = doe + 1 - days_before_year(y2);
            (y2 == y && d2 == d + 1 && d + 1 < march_year_len(y)) || (y2 == y + 1 && d2 == 0 && d + 1
                == march_year_len(y))
        }),
{
    let y = yoe_of(doe);
    let y2 = yoe_of(doe + 1);
    lemma_year_of(doe);
    lemma_year_of(doe + 1);
    lemma_days_before_year_step(y);
    if y2 > y {
        lemma_days_before_year_mono(y, y2);
        if y2 > y + 1 {
            lemma_days_before_year_mono(y + 1, y2);
        }
    } else if y2 < y {
        lemma_days_before_year_mono(y2, y);
        if y2 + 1 < y {
            lemma_days_before_year_mono(y2 + 1, y);
        }
    }
}

proof fn lemma_month_bits(doy: u32)
    requires
        doy <= 365,
    ensures
        ({
            let mp = (5 * doy + 2) / 153;
            let dd = doy - (153 * mp + 2) / 5 + 1;
            let e = doy + 1;
            let mp2 = (5 * e + 2) / 153;
            let dd2 = e - (153 * mp2 + 2) / 5 + 1;
            let ml = if mp == 11 {
                29int
            } else if mp == 1 || mp == 3 || mp == 6 || mp == 8 {
                30int
            } else {
                31int
            };
            &&& mp <= 11
            &&& 1 <= dd
            &&& (mp == 11 <==> doy >= 337)
            &&& (mp == 11 ==> dd + 336 == doy)
            &&& (mp < 11 ==> dd <= ml)
            &&& (doy == 0 ==> mp == 0 && dd == 1)
            &&& (doy <= 364 ==> ((mp2 == mp && dd2 == dd + 1 && dd + 1 <= ml) || (mp2 == mp + 1 && dd2 == 1
                && dd == ml)))
        }),
{
    assert({
        let mp = (5 * doy + 2) / 153;
        let dd = doy - (153 * mp + 2) / 5 + 1;
        let e = (doy + 1) as u32;
        let mp2 = (5 * e + 2) / 153;
        let dd2 = e - (153 * mp2 + 2) / 5 + 1;
        let ml: u32 = if mp == 11 {
            29
        } else if mp == 1 || mp == 3 || mp == 6 || mp == 8 {
            30
        } else {
            31
        };
        &&& mp <= 11
        &&& 1 <= dd
        &&& (mp == 11 <==> doy >= 337)
        &&& (mp == 11 ==> dd + 336 == doy)
        &&& (mp < 11 ==> dd <= ml)
        &&& (doy == 0 ==> mp == 0 && dd == 1)
        &&& (doy <= 364 ==> ((mp2 == mp && dd2 == dd + 1 && dd + 1 <= ml) || (mp2 == mp + 1 && dd2 == 1
            && dd == ml)))
    }) by (bit_vector)
        requires
            doy <= 365,
    ;
}

/// Month and day of the day `doy` of a March-based year, and how they move to the next
/// day: the next day of the month, or the first of the next month after its last day.
proof fn lemma_month_of(doy: int)
    requires
        0 <= doy <= 365,
    ensures
        0 <= mp_of(doy) <= 11,
        1 <= dd_of(doy),
        mp_of(doy) == 11 <==> doy >= 337,
        mp_of(doy) == 11 ==> dd_of(doy) + 336 == doy,
        mp_of(doy) < 11 ==> dd_of(doy) <= march_month_len(mp_of(doy)),
        doy == 0 ==> mp_of(doy) == 0 && dd_of(doy) == 1,
        doy <= 364 ==> ((mp_of(doy + 1) == mp_of(doy) && dd_of(doy + 1) == dd_of(doy) + 1 && dd_of(doy) + 1
            <= march_month_len(mp_of(doy))) || (mp_of(doy + 1) == mp_of(doy) + 1 && dd_of(doy + 1) == 1
            && dd_of(doy) == march_month_len(mp_of(doy)))),
{
    lemma_month_bits(doy as u32);
}

proof fn lemma_leap_shift(y: int, era: int)
    ensures
        is_leap_year(y + era * 400) == is_leap_year(y),
{
    assert((y + era * 400) % 4 == y % 4) by (nonlinear_arith);
    assert((y + era * 400) % 100 == y % 100) by (nonlinear_arith);
    assert((y + era * 400) % 400 == y % 400) by (nonlinear_arith);
}

proof fn lemma_civil_in_era_step(era: int, doe: int)
    requires
        0 <= doe < 146096,
    ensures
        civil_in_era(era, doe + 1) == next_date(civil_in_era(era, doe)),
{
    let y = yoe_of(doe);
    let d = doe - days_before_year(y);
    lemma_year_step(doe);
    lemma_doy_range(doe);
    lemma_year_of(doe);
    lemma_month_of(d);
    lemma_leap_shift(y + 1, era);
    if yoe_of(doe + 1) == y {
        lemma_month_of(d + 1);
    } else {
        lemma_month_of(0);
    }
}

proof fn lemma_civil_era_end(era: int)
    ensures
        civil_in_era(era + 1, 0) == next_date(civil_in_era(era, 146096)),
{
    lemma_year_of(146096);
    let y = yoe_of(146096);
    if y < 399 {
        lemma_days_before_year_mono(y + 1, 400);
    }
    assert(y == 399);
    lemma_month_of(365);
    lemma_month_of(0);
    lemma_year_of(0);
    assert(yoe_of(0) == 0);
    lemma_leap_shift(400, era);
}

proof fn lemma_era_date_next(n: nat)
    ensures
        era_date(n + 1) == next_date(era_date(n)),
{
    let z = n + 719468;
    let era: int = (z / 146097) as int;
    let doe: int = z - era * 146097;
    if doe < 146096 {
        assert((z + 1) / 146097 == era);
        lemma_civil_in_era_step(era, doe);
    } else {
        assert((z + 1) / 146097 == era + 1);
        lemma_civil_era_end(era);
    }
}

/// The era arithmetic gives the calendar date: 1970-01-01 for day 0, and for each
/// following day the day after the previous date.
proof fn lemma_era_date_is_calendar(n: nat)
    ensures
        era_date(n) == date_after_epoch(n),
    decreases n,
{
    if n == 0 {
        lemma_year_of(135080);
        assert(yoe_of(135080) == 369);
        lemma_month_of(306);
    } else {
        lemma_era_date_is_calendar((n - 1) as nat);
        lemma_era_date_next((n - 1) as nat);
    }
}

/// The date `(year, month, day)` of the day `days` after 1970-01-01.
pub fn civil_from_days(days: u64) -> (r: (u64, u64, u64))
    ensures
        (r.0 as int, r.1 as int, r.2 as int) == date_after_epoch(days as nat),
        1 <= r.1 <= 12,
        1 <= r.2 <= 31,
{
    let z = days as u128 + 719468;
    let era = z / 146097;
    let doe = z - era * 146097;
    assert(doe < 146097);
    proof {
        lemma_year_of(doe as int);
        lemma_doy_range(doe as int);
    }
    let yoe = (doe - doe / 1460 + doe / 36524 - doe / 146096) / 365;
    let y = yoe + era * 400;
    let doy = doe - (365 * yoe + yoe / 4 - yoe / 100);
    proof {
        lemma_month_of(doy as int);
    }
    let mp = (5 * doy + 2) / 153;
    let dd = doy - (153 * mp + 2) / 5 + 1;
    let mo = if mp < 10 {
        mp + 3
    } else {
        mp - 9
    };
    let yy = if mo <= 2 {
        y + 1
    } else {
        y
    };
    assert(yy <= u64::MAX) by {
        assert(era <= (u64::MAX as u128 + 719468) / 146097);
    }
    proof {
        lemma_era_date_is_calendar(days as nat);
    }
    (yy as u64, mo as u64, dd as u64)
}

/// `n` written with at least `width` digits, padded with leading zeros.
pub open spec fn padded(n: nat, width: nat) -> Seq<char> {
    let d = text::decimal(n);
    if d.len() >= width {
        d
    } else {
        Seq::new((width - d.len()) as nat, |i: int| '0') + d
    }
}

fn push_padded(s: &mut String, n: u64, width: u64)
    ensures
        final(s)@ == old(s)@ + padded(n as nat, width as nat),
{
    let d = text::u64_to_string(n);
    let len = d.as_str().unicode_len() as u64;
    let ghost start = s@;
    if len < width {
        let mut k: u64 = 0;
        while k < width - len
            invariant
                k <= width - len,
                s@ == start + Seq::new(k as nat, |i: int| '0'),
            decreases width - len - k,
        {
            text::push_char(s, '0');
            k = k + 1;
            assert(s@ =~= start + Seq::new(k as nat, |i: int| '0'));
        }
    }
    s.append(d.as_str());
    assert(s@ =~= start + padded(n as nat, width as nat));
}

/// The UTC time `secs` seconds after the epoch, as `YYYY-MM-DDTHH:MM:SSZ` (no leap
/// seconds).
pub open spec fn spec_iso8601_utc(secs: nat) -> Seq<char> {
    let (y, mo, d) = date_after_epoch(secs / 86400);
    padded(y as nat, 4) + "-"@ + padded(mo as nat, 2) + "-"@ + padded(d as nat, 2) + "T"@ + padded(
        (secs / 3600) % 24,
        2,
    ) + ":"@ + padded((secs / 60) % 60, 2) + ":"@ + padded(secs % 60, 2) + "Z"@
}

/// The UTC time of `secs` seconds after the epoch, in ISO-8601 form.
pub fn iso8601_utc(secs: u64) -> (r: String)
    ensures
        r@ == spec_iso8601_utc(secs as nat),
{
    let s = secs % 60;
    let m = (secs / 60) % 60;
    let h = (secs / 3600) % 24;
    let days = secs / 86400;
    let (y, mo, dd) = civil_from_days(days);
    let mut r = String::new();
    push_padded(&mut r, y, 4);
    r.append("-");
    push_padded(&mut r, mo, 2);
    r.append("-");
    push_padded(&mut r, dd, 2);
    r.append("T");
    push_padded(&mut r, h, 2);
    r.append(":");
    push_padded(&mut r, m, 2);
    r.append(":");
    push_padded(&mut r, s, 2);
    r.append("Z");
    r
}

/// The `.env` file written by the wizard.
pub open spec fn spec_env_file(now: Seq<char>, port: Seq<char>, secret: Seq<char>) -> Seq<char> {
    "# Yunexal Panel \u{2014} auto-generated by yunexal-setup on "@ + now + "\nPANEL_PORT="@ + port
        + "\nCOOKIE_SECRET="@ + secret + "\nDATABASE_URL=sqlite:yunexal.db\n"@
}

/// The `.env` file written by the wizard at time `now`.
pub fn env_file_content(now: &str, port: &str, secret: &str) -> (r: String)
    ensures
        r@ == spec_env_file(now@, port@, secret@),
{
    let mut r = String::from_str("# Yunexal Panel \u{2014} auto-generated by yunexal-setup on ");
    r.append(now);
    r.append("\nPANEL_PORT=");
    r.append(port);
    r.append("\nCOOKIE_SECRET=");
    r.append(secret);
    r.append("\nDATABASE_URL=sqlite:yunexal.db\n");
    r
}

/// The panel port recorded in a `.env` text: the rest of the first line that starts
/// with `PANEL_PORT=`.
pub open spec fn spec_env_port(content: Seq<char>) -> Option<Seq<char>> {
    match host::first_with_prefix(text::lines(content), "PANEL_PORT="@) {
        Some(l) => Some(l.subrange("PANEL_PORT="@.len() as int, l.len() as int)),
        None => None,
    }
}

/// A `.env` written by the wizard reads back the port it was written with, when
/// neither the timestamp nor the port holds a line break and the port does not end
/// with a carriage return.
pub proof fn lemma_env_port_round_trip(now: Seq<char>, port: Seq<char>, secret: Seq<char>)
    requires
        !now.contains('\n'),
        !port.contains('\n'),
        port.len() == 0 || port.last() != '\r',
    ensures
        spec_env_port(spec_env_file(now, port, secret)) == Some(port),
{
    let h = "# Yunexal Panel \u{2014} auto-generated by yunexal-setup on "@;
    let np = "\nPANEL_PORT="@;
    let p = "PANEL_PORT="@;
    let c = "\nCOOKIE_SECRET="@;
    let d = "\nDATABASE_URL=sqlite:yunexal.db\n"@;
    reveal_strlit("# Yunexal Panel \u{2014} auto-generated by yunexal-setup on ");
    reveal_strlit("\nPANEL_PORT=");
    reveal_strlit("PANEL_PORT=");
    reveal_strlit("\nCOOKIE_SECRET=");
    let s = spec_env_file(now, port, secret);
    let a = h + now;
    let pl = p + port;
    let rest = c.drop_first() + secret + d;
    let b = pl + seq!['\n'] + rest;
    assert(np =~= seq!['\n'] + p);
    assert(c =~= seq!['\n'] + c.drop_first());
    assert(s =~= a + seq!['\n'] + b);
    assert(!a.contains('\n')) by {
        assert forall|i: int| 0 <= i < a.len() implies a[i] != '\n' by {
            if i >= h.len() {
                assert(a[i] == now[i - h.len()]);
            }
        }
    }
    assert(!pl.contains('\n')) by {
        assert forall|i: int| 0 <= i < pl.len() implies pl[i] != '\n' by {
            if i >= p.len() {
                assert(pl[i] == port[i - p.len()]);
            }
        }
    }
    text::lemma_lines_after_piece(a, b);
    text::lemma_lines_after_piece(pl, rest);
    assert(strip_cr_keeps(pl)) by {
        if port.len() > 0 {
            assert(pl.last() == port.last());
        }
    }
    let ls = text::lines(s);
    assert(ls[0] == text::strip_cr(a));
    assert(text::strip_cr(a)[0] == '#');
    assert(!text::has_prefix(ls[0], p)) by {
        if text::has_prefix(ls[0], p) {
            assert(ls[0].subrange(0, p.len() as int)[0] == ls[0][0]);
        }
    }
    assert(ls.drop_first() =~= text::lines(b));
    assert(text::lines(b)[0] == pl);
    assert(text::has_prefix(pl, p)) by {
        assert(pl.subrange(0, p.len() as int) =~= p);
    }
    assert(host::first_with_prefix(text::lines(b), p) == Some(pl));
    assert(host::first_with_prefix(ls, p) == Some(pl));
    assert(pl.subrange(p.len() as int, pl.len() as int) =~= port);
}

/// Stripping a final carriage return leaves `l` as it is.
spec fn strip_cr_keeps(l: Seq<char>) -> bool {
    text::strip_cr(l) == l
}

/// The panel port recorded in a `.env` text.
pub fn env_port(content: &str) -> (r: Option<String>)
    ensures
        text::opt_string_view(r) == spec_env_port(content@),
{
    let cv = text::chars_of(content);
    let ls = text::lines_of(&cv);
    let prefix = text::chars_of("PANEL_PORT=");
    let n = ls.len();
    let mut i: usize = 0;
    let ghost lv = text::views(ls@);
    assert(lv.subrange(0, n as int) =~= lv);
    while i < n
        invariant
            n == ls@.len(),
            i <= n,
            prefix@ == "PANEL_PORT="@,
            lv == text::views(ls@),
            lv == text::lines(content@),
            host::first_with_prefix(lv, "PANEL_PORT="@) == host::first_with_prefix(lv.subrange(i as int, n as int), "PANEL_PORT="@),
        decreases n - i,
    {
        proof {
            let rest = lv.subrange(i as int, n as int);
            assert(rest[0] == ls@[i as int]@);
            assert(rest.drop_first() =~= lv.subrange(i + 1, n as int));
        }
        if text::starts_with(&ls[i], &prefix) {
            return Some(text::string_of_range(&ls[i], prefix.len(), ls[i].len()));
        }
        i = i + 1;
    }
    None
}

/// The panel port to show: the recorded one, else `3000`.
pub fn panel_port_or_default(recorded: Option<String>) -> (r: String)
    ensures
        r@ == (match recorded {
            Some(p) => p@,
            None => "3000"@,
        }),
{
    match recorded {
        Some(p) => p,
        None => String::from_str("3000"),
    }
}

// ───────────────────────── container import ─────────────────────────

/// The 0-based indices picked by the words `ws` of a selection among `count`
/// containers: each word that parses as a number from 1 to `count` picks that
/// container, in order; other words are ignored.
pub open spec fn picked_indices(ws: Seq<Seq<char>>, count: nat) -> Seq<usize>
    decreases ws.len(),
{
    if ws.len() == 0 {
        seq![]
    } else {
        let before = picked_indices(ws.drop_last(), count);
        match text::parse_unsigned(ws.last(), usize::MAX as nat) {
            Some(n) => if 1 <= n <= count {
                before.push((n - 1) as usize)
            } else {
                before
            },
            None => before,
        }
    }
}

/// The containers to import for a selection: all of them for `all` (in any ASCII case,
/// surrounding whitespace ignored), else the numbers typed.
pub open spec fn spec_import_selection(selection: Seq<char>, count: nat) -> Seq<usize> {
    if text::eq_ignore_ascii_case(text::trim(selection), "all"@) {
        Seq::new(count, |i: int| i as usize)
    } else {
        picked_indices(text::words(selection), count)
    }
}

proof fn lemma_picked_indices_in_range(ws: Seq<Seq<char>>, count: nat)
    ensures
        forall|k: int| 0 <= k < picked_indices(ws, count).len() ==> (#[trigger] picked_indices(ws, count)[k]) < count,
    decreases ws.len(),
{
    if ws.len() > 0 {
        lemma_picked_indices_in_range(ws.drop_last(), count);
        let before = picked_indices(ws.drop_last(), count);
        assert forall|k: int| 0 <= k < picked_indices(ws, count).len() implies (#[trigger] picked_indices(ws, count)[k]) < count by {
            if k < before.len() {
                assert(picked_indices(ws, count)[k] == before[k]);
            }
        }
    }
}

/// Every index picked by a selection names one of the `count` containers.
pub proof fn lemma_import_selection_in_range(selection: Seq<char>, count: nat)
    requires
        count <= usize::MAX,
    ensures
        forall|k: int|
            0 <= k < spec_import_selection(selection, count).len() ==> (#[trigger] spec_import_selection(
                selection,
                count,
            )[k]) < count,
{
    lemma_picked_indices_in_range(text::words(selection), count);
}

/// The 0-based indices of the containers to import.
pub fn parse_import_selection(selection: &str, count: usize) -> (r: Vec<usize>)
    ensures
        r@ == spec_import_selection(selection@, count as nat),
{
    let t = text::trim_str(selection);
    if text::eq_ignore_ascii_case_exec(&t, "all") {
        let mut r: Vec<usize> = Vec::new();
        let mut i: usize = 0;
        while i < count
            invariant
                i <= count,
                r@ == Seq::new(i as nat, |k: int| k as usize),
            decreases count - i,
        {
            r.push(i);
            i = i + 1;
            assert(r@ =~= Seq::new(i as nat, |k: int| k as usize));
        }
        return r;
    }
    let sv = text::chars_of(selection);
    let ws = text::words_of(&sv);
    let mut r: Vec<usize> = Vec::new();
    let mut i: usize = 0;
    let ghost wv = text::views(ws@);
    assert(wv.subrange(0, 0) =~= Seq::<Seq<char>>::empty());
    while i < ws.len()
        invariant
            i <= ws@.len(),
            wv == text::views(ws@),
            r@ == picked_indices(wv.subrange(0, i as int), count as nat),
        decreases ws@.len() - i,
    {
        proof {
            assert(wv.subrange(0, i + 1).drop_last() =~= wv.subrange(0, i as int));
            assert(wv.subrange(0, i + 1).last() == ws@[i as int]@);
        }
        match text::parse_unsigned_chars(&ws[i], usize::MAX as u64) {
            Some(n) => {
                if n >= 1 && n <= count as u64 {
                    r.push((n - 1) as usize);
                }
            },
            None => {},
        }
        i = i + 1;
    }
    assert(wv.subrange(0, wv.len() as int) =~= wv);
    r
}

/// How the wizard lists a container: its id, its first name without leading slashes
/// (`unknown` when it has none), its image and its status.
pub fn container_summary(
    id: Option<String>,
    names: Option<Vec<String>>,
    image: Option<String>,
    status: Option<String>,
) -> (r: (String, String, String, String))
    ensures
        r.0@ == (match id {
            Some(x) => x@,
            None => Seq::<char>::empty(),
        }),
        r.1@ == (match names {
            Some(ns) => if ns@.len() > 0 {
                crate::version_control::strip_leading_slashes(ns@[0]@)
            } else {
                "unknown"@
            },
            None => "unknown"@,
        }),
        r.2@ == (match image {
            Some(x) => x@,
            None => Seq::<char>::empty(),
        }),
        r.3@ == (match status {
            Some(x) => x@,
            None => Seq::<char>::empty(),
        }),
{
    let id = match id {
        Some(x) => x,
        None => String::new(),
    };
    let name = match &names {
        Some(ns) => if ns.len() > 0 {
            let v = text::chars_of(ns[0].as_str());
            let mut k: usize = 0;
            assert(v@.subrange(0, v@.len() as int) =~= v@);
            while k < v.len() && v[k] == '/'
                invariant
                    k <= v@.len(),
                    crate::version_control::strip_leading_slashes(v@)
                        == crate::version_control::strip_leading_slashes(v@.subrange(k as int, v@.len() as int)),
                decreases v@.len() - k,
            {
                proof {
                    assert(v@.subrange(k as int, v@.len() as int).drop_first() =~= v@.subrange(k + 1, v@.len() as int));
                }
                k = k + 1;
            }
            proof {
                if k < v@.len() {
                    assert(v@.subrange(k as int, v@.len() as int)[0] == v@[k as int]);
                }
            }
            text::string_of_range(&v, k, v.len())
        } else {
            String::from_str("unknown")
        },
        None => String::from_str("unknown"),
    };
    let image = match image {
        Some(x) => x,
        None => String::new(),
    };
    let status = match status {
        Some(x) => x,
        None => String::new(),
    };
    (id, name, image, status)
}

// ───────────────────────── shell quoting ─────────────────────────

/// What one character becomes inside the single quotes of a generated script:
/// a backslash is doubled, a quote becomes `'\''`, anything else stays.
pub open spec fn esc_char(c: char) -> Seq<char> {
    if c == '\\' {
        seq!['\\', '\\']
    } else if c == '\'' {
        seq!['\'', '\\', '\'', '\'']
    } else {
        seq![c]
    }
}

/// `s` escaped for the inside of single quotes, as `sh_esc_single` writes it.
pub open spec fn spec_sh_esc_single(s: Seq<char>) -> Seq<char>
    decreases s.len(),
{
    if s.len() == 0 {
        seq![]
    } else {
        spec_sh_esc_single(s.drop_last()) + esc_char(s.last())
    }
}

/// `s` escaped for the inside of single quotes.
pub fn sh_esc_single(s: &str) -> (r: String)
    ensures
        r@ == spec_sh_esc_single(s@),
{
    let v = text::chars_of(s);
    let mut r = String::new();
    let mut i: usize = 0;
    assert(v@.subrange(0, 0) =~= Seq::<char>::empty());
    while i < v.len()
        invariant
            i <= v@.len(),
            v@ == s@,
            r@ == spec_sh_esc_single(v@.subrange(0, i as int)),
        decreases v@.len() - i,
    {
        let c = v[i];
        let ghost before = r@;
        if c == '\\' {
            text::push_char(&mut r, '\\');
            text::push_char(&mut r, '\\');
        } else if c == '\'' {
            text::push_char(&mut r, '\'');
            text::push_char(&mut r, '\\');
            text::push_char(&mut r, '\'');
            text::push_char(&mut r, '\'');
        } else {
            text::push_char(&mut r, c);
        }
        proof {
            assert(v@.subrange(0, i + 1).drop_last() =~= v@.subrange(0, i as int));
            assert(v@.subrange(0, i + 1).last() == c);
            assert(r@ =~= before + esc_char(c));
        }
        i = i + 1;
    }
    assert(v@.subrange(0, v@.len() as int) =~= v@);
    r
}

proof fn lemma_esc_nonempty(s: Seq<char>)
    ensures
        spec_sh_esc_single(s).len() >= s.len(),
    decreases s.len(),
{
    if s.len() > 0 {
        lemma_esc_nonempty(s.drop_last());
    }
}

/// Escaping loses nothing: different strings escape differently.
pub proof fn lemma_sh_esc_injective(a: Seq<char>, b: Seq<char>)
    requires
        spec_sh_esc_single(a) == spec_sh_esc_single(b),
    ensures
        a == b,
    decreases a.len(),
{
    lemma_esc_nonempty(a);
    lemma_esc_nonempty(b);
    if a.len() == 0 {
        assert(b.len() == 0);
        assert(a =~= b);
    } else if b.len() == 0 {
        assert(false);
    } else {
        let x = a.last();
        let y = b.last();
        let ea = spec_sh_esc_single(a.drop_last());
        let eb = spec_sh_esc_single(b.drop_last());
        let cx = esc_char(x);
        let cy = esc_char(y);
        let e = spec_sh_esc_single(a);
        assert(e == ea + cx);
        assert(e == eb + cy);
        assert(e.last() == cx.last() && e.last() == cy.last());
        if cx.len() == cy.len() {
            assert forall|k: int| 0 <= k < cx.len() implies cx[k] == cy[k] by {
                assert(e[ea.len() + k] == cx[k]);
                assert(e[eb.len() + k] == cy[k]);
            }
            assert(cx =~= cy);
            assert(x == y) by {
                assert(cx[0] == cy[0]);
            }
            assert(ea =~= eb) by {
                assert forall|k: int| 0 <= k < ea.len() implies ea[k] == eb[k] by {
                    assert(e[k] == ea[k]);
                    assert(e[k] == eb[k]);
                }
            }
            lemma_sh_esc_injective(a.drop_last(), b.drop_last());
            assert(a =~= a.drop_last().push(x));
            assert(b =~= b.drop_last().push(y));
        } else {
            // One code would be a proper suffix of the other, which no code is.
            let n = e.len();
            if cx.len() < cy.len() {
                assert(e[n - 1] == cx[cx.len() - 1] && e[n - 1] == cy[cy.len() - 1]);
                assert(e[n - 2] == cy[cy.len() - 2]);
                if cx.len() == 2 {
                    assert(e[n - 2] == cx[0]);
                }
                if cx.len() == 1 {
                    assert(cx[0] == x);
                }
                assert(false);
            } else {
                assert(e[n - 1] == cx[cx.len() - 1] && e[n - 1] == cy[cy.len() - 1]);
                assert(e[n - 2] == cx[cx.len() - 2]);
                if cy.len() == 2 {
                    assert(e[n - 2] == cy[0]);
                }
                if cy.len() == 1 {
                    assert(cy[0] == y);
                }
                assert(false);
            }
        }
    }
}

/// `c` put in front of a value, if there is one.
pub open spec fn prepend_char(c: char, v: Option<Seq<char>>) -> Option<Seq<char>> {
    match v {
        Some(x) => Some(seq![c] + x),
        None => None,
    }
}

/// The value the shell gives the characters `w` of a word, `quoted` telling whether
/// they start inside single quotes. Inside quotes every character but `'` stands for
/// itself and `'` closes them; outside, `'` opens quotes, a backslash makes the next
/// character stand for itself, and any other character stands for itself. A word that
/// ends inside quotes has no value.
pub open spec fn sh_word_value(w: Seq<char>, quoted: bool) -> Option<Seq<char>>
    decreases w.len(),
{
    if w.len() == 0 {
        if quoted {
            None
        } else {
            Some(seq![])
        }
    } else if quoted {
        if w[0] == '\'' {
            sh_word_value(w.drop_first(), false)
        } else {
            prepend_char(w[0], sh_word_value(w.drop_first(), true))
        }
    } else if w[0] == '\'' {
        sh_word_value(w.drop_first(), true)
    } else if w[0] == '\\' && w.len() >= 2 {
        prepend_char(w[1], sh_word_value(w.subrange(2, w.len() as int), false))
    } else {
        prepend_char(w[0], sh_word_value(w.drop_first(), false))
    }
}

spec fn prepend_seq(s: Seq<char>, v: Option<Seq<char>>) -> Option<Seq<char>> {
    match v {
        Some(x) => Some(s + x),
        None => None,
    }
}

proof fn lemma_esc_inside_quotes(s: Seq<char>, t: Seq<char>)
    requires
        !s.contains('\\'),
    ensures
        sh_word_value(spec_sh_esc_single(s) + t, true) == prepend_seq(s, sh_word_value(t, true)),
    decreases s.len(),
{
    if s.len() == 0 {
        assert(spec_sh_esc_single(s) + t =~= t);
        assert(sh_word_value(t, true) matches Some(v) ==> s + v =~= v);
    } else {
        let x = s.last();
        let front = s.drop_last();
        assert(!front.contains('\\')) by {
            if front.contains('\\') {
                let j = choose|j: int| 0 <= j < front.len() && front[j] == '\\';
                assert(s[j] == '\\');
            }
        }
        assert(x != '\\') by {
            assert(s[s.len() - 1] == x);
        }
        let t2 = esc_char(x) + t;
        lemma_esc_inside_quotes(front, t2);
        assert(spec_sh_esc_single(s) + t =~= spec_sh_esc_single(front) + t2);
        if x == '\'' {
            let q = seq!['\'', '\\', '\'', '\''];
            assert(esc_char(x) == q);
            let u = seq!['\\', '\'', '\''] + t;
            let v = seq!['\''] + t;
            assert(t2[0] == '\'');
            assert(t2.drop_first() =~= u);
            assert(sh_word_value(t2, true) == sh_word_value(u, false));
            assert(u[0] == '\\' && u[1] == '\'' && u.len() >= 2);
            assert(u.subrange(2, u.len() as int) =~= v);
            assert(sh_word_value(u, false) == prepend_char('\'', sh_word_value(v, false)));
            assert(v[0] == '\'');
            assert(v.drop_first() =~= t);
            assert(sh_word_value(v, false) == sh_word_value(t, true));
            assert(sh_word_value(t2, true) == prepend_char('\'', sh_word_value(t, true)));
        } else {
            assert(t2.drop_first() =~= t);
        }
        match sh_word_value(t, true) {
            Some(v) => {
                assert(front + (seq![x] + v) =~= s + v);
            },
            None => {},
        }
    }
}

/// Put between single quotes, an escaped string without backslashes reads back in the
/// shell as the string itself.
pub proof fn lemma_sh_esc_reads_back(s: Seq<char>)
    requires
        !s.contains('\\'),
    ensures
        sh_word_value(seq!['\''] + spec_sh_esc_single(s) + seq!['\''], false) == Some(s),
{
    let w = seq!['\''] + spec_sh_esc_single(s) + seq!['\''];
    assert(w[0] == '\'');
    assert(w.drop_first() =~= spec_sh_esc_single(s) + seq!['\'']);
    assert(sh_word_value(w, false) == sh_word_value(w.drop_first(), true));
    lemma_esc_inside_quotes(s, seq!['\'']);
    assert(seq!['\''].drop_first() =~= Seq::<char>::empty());
    assert(sh_word_value(seq!['\''], true) == sh_word_value(Seq::<char>::empty(), false));
    assert(sh_word_value(Seq::<char>::empty(), false) == Some(Seq::<char>::empty()));
    assert(s + Seq::<char>::empty() =~= s);
}

// ───────────────────────── the OpenRC service ─────────────────────────

/// Where the service binary may be, in the order looked at: the working directory, a
/// release build, a debug build.
pub open spec fn spec_service_binary_candidates(dir: Seq<char>) -> Seq<Seq<char>> {
    seq![
        host::path_join(dir, "yunexal-panel"@),
        host::path_join(dir, "target/release/yunexal-panel"@),
        host::path_join(dir, "target/debug/yunexal-panel"@),
    ]
}

fn join_str(dir: &str, name: &str) -> (r: String)
    ensures
        r@ == host::path_join(dir@, name@),
{
    let d = text::chars_of(dir);
    let n = text::chars_of(name);
    let j = host::join_path(&d, &n);
    text::string_of(&j)
}

/// Where the service binary may be.
pub fn service_binary_candidates(dir: &str) -> (r: Vec<String>)
    ensures
        text::string_views(r@) == spec_service_binary_candidates(dir@),
{
    let mut r: Vec<String> = Vec::new();
    r.push(join_str(dir, "yunexal-panel"));
    r.push(join_str(dir, "target/release/yunexal-panel"));
    r.push(join_str(dir, "target/debug/yunexal-panel"));
    assert(text::string_views(r@) =~= spec_service_binary_candidates(dir@));
    r
}

/// The service binary: the first candidate that exists (`present[i]` tells whether
/// candidate `i` does), else the release build's path.
pub fn service_binary(dir: &str, present: &Vec<bool>) -> (r: String)
    ensures
        ({
            let c = spec_service_binary_candidates(dir@);
            let k = if 0 < present@.len() && present@[0] {
                0int
            } else if 1 < present@.len() && present@[1] {
                1
            } else if 2 < present@.len() && present@[2] {
                2
            } else {
                -1
            };
            r@ == if k >= 0 {
                c[k]
            } else {
                host::path_join(dir@, "target/release/yunexal-panel"@)
            }
        }),
{
    let c = service_binary_candidates(dir);
    assert(c@.len() == text::string_views(c@).len());
    let mut i: usize = 0;
    while i < 3
        invariant
            i <= 3,
            c@.len() == 3,
            text::string_views(c@) == spec_service_binary_candidates(dir@),
            forall|j: int| 0 <= j < i ==> !(j < present@.len() && present@[j]),
        decreases 3 - i,
    {
        if i < present.len() && present[i] {
            assert(text::string_views(c@)[i as int] == c@[i as int]@);
            return c[i].clone();
        }
        i = i + 1;
    }
    join_str(dir, "target/release/yunexal-panel")
}

/// Where the launcher script goes.
pub fn launcher_path(dir: &str) -> (r: String)
    ensures
        r@ == host::path_join(dir@, "yunexal-panel-launcher.sh"@),
{
    join_str(dir, "yunexal-panel-launcher.sh")
}

/// The launcher script: it exports the variables of `<workdir>/.env` when that file
/// exists and runs the binary with the script's arguments.
pub open spec fn spec_launcher_script(workdir: Seq<char>, bin: Seq<char>) -> Seq<char> {
    let w = spec_sh_esc_single(workdir);
    "#!/bin/sh\nset -a\n[ -f '"@ + w + "/.env' ] && . '"@ + w + "/.env'\nset +a\nexec '"@
        + spec_sh_esc_single(bin) + "' \"$@\"\n"@
}

/// The launcher script for the service.
pub fn launcher_script(workdir: &str, bin: &str) -> (r: String)
    ensures
        r@ == spec_launcher_script(workdir@, bin@),
{
    let w = sh_esc_single(workdir);
    let b = sh_esc_single(bin);
    let mut r = String::from_str("#!/bin/sh\nset -a\n[ -f '");
    r.append(w.as_str());
    r.append("/.env' ] && . '");
    r.append(w.as_str());
    r.append("/.env'\nset +a\nexec '");
    r.append(b.as_str());
    r.append("' \"$@\"\n");
    r
}

/// The OpenRC service file: it runs the launcher as `user` in `workdir`, in the
/// background with a pid file, logging to `/var/log/yunexal-panel.log`, after the
/// network and Docker.
pub open spec fn spec_openrc_service_file(user: Seq<char>, workdir: Seq<char>, launcher: Seq<char>) -> Seq<char> {
    "#!/sbin/openrc-run\nname=\"yunexal-panel\"\ndescription=\"Yunexal Panel service\"\ncommand=\""@
        + launcher + "\"\ncommand_user=\""@ + user + ":"@ + user + "\"\ndirectory=\""@ + workdir
        + "\"\npidfile=\"/run/yunexal-panel.pid\"\ncommand_background=\"yes\"\nstart_stop_daemon_args=\"--make-pidfile --pidfile ${pidfile} --stdout /var/log/yunexal-panel.log --stderr /var/log/yunexal-panel.log\"\n\ndepend() {\nneed net docker\nafter firewall\n}\n\nstart_pre() {\ncheckpath --file --mode 0644 --owner "@
        + user + ":"@ + user
        + " /var/log/yunexal-panel.log\ncheckpath --directory --mode 0755 /run\n}\n"@
}

/// The OpenRC service file.
pub fn openrc_service_file(user: &str, workdir: &str, launcher: &str) -> (r: String)
    ensures
        r@ == spec_openrc_service_file(user@, workdir@, launcher@),
{
    let mut r = String::from_str(
        "#!/sbin/openrc-run\nname=\"yunexal-panel\"\ndescription=\"Yunexal Panel service\"\ncommand=\"",
    );
    r.append(launcher);
    r.append("\"\ncommand_user=\"");
    r.append(user);
    r.append(":");
    r.append(user);
    r.append("\"\ndirectory=\"");
    r.append(workdir);
    r.append(
        "\"\npidfile=\"/run/yunexal-panel.pid\"\ncommand_background=\"yes\"\nstart_stop_daemon_args=\"--make-pidfile --pidfile ${pidfile} --stdout /var/log/yunexal-panel.log --stderr /var/log/yunexal-panel.log\"\n\ndepend() {\nneed net docker\nafter firewall\n}\n\nstart_pre() {\ncheckpath --file --mode 0644 --owner ",
    );
    r.append(user);
    r.append(":");
    r.append(user);
    r.append(" /var/log/yunexal-panel.log\ncheckpath --directory --mode 0755 /run\n}\n");
    r
}

/// Where the OpenRC service file goes.
pub fn openrc_service_path() -> (r: &'static str)
    ensures
        r@ == "/etc/init.d/yunexal-panel"@,
{
    "/etc/init.d/yunexal-panel"
}

// ───────────────────────── nginx ─────────────────────────

/// The proxy block of the nginx configuration: everything to the panel on
/// `127.0.0.1:<port>`, with the headers that WebSocket connections need.
pub open spec fn spec_nginx_location(port: Seq<char>) -> Seq<char> {
    "    server_tokens off;\n    proxy_hide_header X-Powered-By;\n\n    # WebSocket + HTTP reverse proxy (required for console)\n    location / {\n        proxy_pass http://127.0.0.1:"@
        + port
        + ";\n        proxy_http_version 1.1;\n        proxy_set_header Upgrade $http_upgrade;\n        proxy_set_header Connection \"upgrade\";\n        proxy_set_header Host $host;\n        proxy_set_header X-Real-IP $remote_addr;\n        proxy_set_header X-Forwarded-For $proxy_add_x_forwarded_for;\n        proxy_set_header X-Forwarded-Proto $scheme;\n        proxy_read_timeout 3600s;\n        proxy_send_timeout 3600s;\n    }\n"@
}

/// The nginx virtual host for `domain`: with a certificate and key, a port-80 server
/// that redirects to HTTPS and a TLS server with the proxy block; without, a port-80
/// server with the proxy block.
pub open spec fn spec_nginx_config(domain: Seq<char>, port: Seq<char>, ssl: Option<(Seq<char>, Seq<char>)>) -> Seq<char> {
    match ssl {
        Some((cert, key)) => "server {\n    listen 80;\n    server_name "@ + domain
            + ";\n    return 301 https://$host$request_uri;\n}\n\nserver {\n    listen 443 ssl;\n    server_name "@
            + domain + ";\n\n    ssl_certificate "@ + cert + ";\n    ssl_certificate_key "@ + key
            + ";\n\n"@ + spec_nginx_location(port) + "}\n"@,
        None => "server {\n    listen 80;\n    server_name "@ + domain + ";\n\n"@ + spec_nginx_location(port)
            + "}\n"@,
    }
}

/// The nginx virtual host for the panel.
pub fn build_nginx_config(domain: &str, port: &str, ssl: Option<(&str, &str)>) -> (r: String)
    ensures
        r@ == spec_nginx_config(domain@, port@, match ssl {
            Some((c, k)) => Some((c@, k@)),
            None => None,
        }),
{
    let mut location = String::from_str(
        "    server_tokens off;\n    proxy_hide_header X-Powered-By;\n\n    # WebSocket + HTTP reverse proxy (required for console)\n    location / {\n        proxy_pass http://127.0.0.1:",
    );
    location.append(port);
    location.append(
        ";\n        proxy_http_version 1.1;\n        proxy_set_header Upgrade $http_upgrade;\n        proxy_set_header Connection \"upgrade\";\n        proxy_set_header Host $host;\n        proxy_set_header X-Real-IP $remote_addr;\n        proxy_set_header X-Forwarded-For $proxy_add_x_forwarded_for;\n        proxy_set_header X-Forwarded-Proto $scheme;\n        proxy_read_timeout 3600s;\n        proxy_send_timeout 3600s;\n    }\n",
    );
    match ssl {
        Some((cert, key)) => {
            let mut r = String::from_str("server {\n    listen 80;\n    server_name ");
            r.append(domain);
            r.append(";\n    return 301 https://$host$request_uri;\n}\n\nserver {\n    listen 443 ssl;\n    server_name ");
            r.append(domain);
            r.append(";\n\n    ssl_certificate ");
            r.append(cert);
            r.append(";\n    ssl_certificate_key ");
            r.append(key);
            r.append(";\n\n");
            r.append(location.as_str());
            r.append("}\n");
            r
        },
        None => {
            let mut r = String::from_str("server {\n    listen 80;\n    server_name ");
            r.append(domain);
            r.append(";\n\n");
            r.append(location.as_str());
            r.append("}\n");
            r
        },
    }
}

/// The Let's Encrypt certificate and key paths of `domain`.
pub fn letsencrypt_paths(domain: &str) -> (r: (String, String))
    ensures
        r.0@ == "/etc/letsencrypt/live/"@ + domain@ + "/fullchain.pem"@,
        r.1@ == "/etc/letsencrypt/live/"@ + domain@ + "/privkey.pem"@,
{
    let mut cert = String::from_str("/etc/letsencrypt/live/");
    cert.append(domain);
    cert.append("/fullchain.pem");
    let mut key = String::from_str("/etc/letsencrypt/live/");
    key.append(domain);
    key.append("/privkey.pem");
    (cert, key)
}

/// The certificate and key paths of `domain` as Let's Encrypt lays them out.
pub open spec fn spec_letsencrypt_paths(domain: Seq<char>) -> (Seq<char>, Seq<char>) {
    ("/etc/letsencrypt/live/"@ + domain + "/fullchain.pem"@, "/etc/letsencrypt/live/"@ + domain
        + "/privkey.pem"@)
}

/// The nginx site for `domain`, none when no domain was entered: HTTPS with the Let's
/// Encrypt certificate when it exists (`cert_exists`), plain HTTP otherwise.
pub fn nginx_site(domain: &str, port: &str, cert_exists: bool) -> (r: Option<String>)
    ensures
        domain@.len() == 0 ==> r is None,
        domain@.len() > 0 ==> (r matches Some(c) && c@ == spec_nginx_config(domain@, port@, if cert_exists {
            Some(spec_letsencrypt_paths(domain@))
        } else {
            None
        })),
{
    if domain.unicode_len() == 0 {
        return None;
    }
    let (cert, key) = letsencrypt_paths(domain);
    if cert_exists {
        Some(build_nginx_config(domain, port, Some((cert.as_str(), key.as_str()))))
    } else {
        Some(build_nginx_config(domain, port, None))
    }
}

/// The OpenRC action that applies a new nginx configuration: `reload` when nginx runs,
/// `start` when it does not.
pub fn nginx_service_action(is_running: bool) -> (r: &'static str)
    ensures
        r@ == (if is_running { "reload"@ } else { "start"@ }),
{
    if is_running {
        "reload"
    } else {
        "start"
    }
}

/// Where the nginx configuration goes.
pub fn nginx_config_path() -> (r: &'static str)
    ensures
        r@ == "/etc/nginx/http.d/yunexal-panel.conf"@,
{
    "/etc/nginx/http.d/yunexal-panel.conf"
}

} // verus!
