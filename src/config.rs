use vstd::prelude::*;
use vstd::string::*;

verus! {

/// What the time-to-live text reads as, in whole seconds, when it is a
/// well-formed duration.
pub uninterp spec fn duration_secs_of(s: Seq<char>) -> Option<u64>;

/// What the config crate reads a text value as, when taken as a flag.
pub uninterp spec fn flag_of(s: Seq<char>) -> Option<bool>;

/// What the config crate reads a text value as, when taken as an integer.
pub uninterp spec fn int_of(s: Seq<char>) -> Option<i64>;

/// Relies on config::Value::into_bool on a text value: `true`, `on`, `yes`
/// or `1` and `false`, `off`, `no` or `0`, in any case; `None` otherwise.
#[verifier::external_body]
fn read_flag(s: &str) -> (r: Option<bool>)
    ensures
        r == flag_of(s@),
{
    config::Value::new(None, s.to_string()).into_bool().ok()
}

/// Relies on config::Value::into_int on a text value: the flag words as 1
/// and 0, else the text parsed as an `i64`; `None` when it is neither.
#[verifier::external_body]
fn read_int(s: &str) -> (r: Option<i64>)
    ensures
        r == int_of(s@),
{
    config::Value::new(None, s.to_string()).into_int().ok()
}

/// Seconds in a `u64`; totals are counted up to this cap.
pub const SECS_CAP: u128 = 0xffff_ffff_ffff_ffff;

/// Seconds in humantime's longest unit, the year of 365.25 days.
pub const YEAR_SECS: u128 = 31_557_600;

pub open spec fn is_unit_letter(c: char) -> bool {
    ('a' <= c && c <= 'z') || ('A' <= c && c <= 'Z') || c == '\u{b5}'
}

/// The seconds of one unit of a span and the divisor that brings the
/// span's number to seconds, judged from the first letters of its unit word
/// (`letters` counts them, up to three): nanoseconds, microseconds and
/// milliseconds (`n...`, `u...`, `µ...`, `ms...`, `mil...`) divide, `s` is a
/// second, `m`, `mi...` a minute, `mo...` and `M` a month, `h` an hour, `d`
/// a day, `w` a week, and anything else counts as a year, humantime's
/// longest unit. A number without a unit word counts in years too.
pub open spec fn unit_of(letters: u8, a: char, b: char, c: char) -> (u128, u128) {
    if letters == 0 {
        (YEAR_SECS, 1)
    } else if a == 'n' {
        (1, 1_000_000_000)
    } else if a == 'u' || a == '\u{b5}' {
        (1, 1_000_000)
    } else if a == 's' {
        (1, 1)
    } else if a == 'h' {
        (3600, 1)
    } else if a == 'd' {
        (86400, 1)
    } else if a == 'w' {
        (604800, 1)
    } else if a == 'M' {
        (2_630_016, 1)
    } else if a == 'm' {
        if letters == 1 {
            (60, 1)
        } else if b == 's' {
            (1, 1000)
        } else if b == 'o' {
            (2_630_016, 1)
        } else if b == 'i' {
            if letters >= 3 && c == 'l' {
                (1, 1000)
            } else {
                (60, 1)
            }
        } else {
            (YEAR_SECS, 1)
        }
    } else {
        (YEAR_SECS, 1)
    }
}

pub open spec fn capped(x: int) -> u128 {
    if x > SECS_CAP {
        SECS_CAP
    } else {
        x as u128
    }
}

/// A left-to-right scan of a time-to-live text, span by span, where a span
/// is a number (digits, with spaces inside it skipped, then perhaps a
/// fraction) followed by a unit word.
#[derive(Clone, Copy)]
pub struct SpanScan {
    /// bound on the seconds of the spans closed so far
    pub total: u128,
    /// integer part of the open span's number, capped
    pub number: u128,
    /// letters of the open span's unit word seen so far, up to three
    pub letters: u8,
    pub a: char,
    pub b: char,
    pub c: char,
    /// whether the open span's number has reached its fraction
    pub fraction: bool,
}

pub open spec fn scan_start() -> SpanScan {
    SpanScan { total: 0, number: 0, letters: 0, a: ' ', b: ' ', c: ' ', fraction: false }
}

pub open spec fn scan_ok(st: SpanScan) -> bool {
    st.total <= SECS_CAP && st.number <= SECS_CAP && st.letters <= 3
}

/// The most seconds that the open span can add: its integer part plus one,
/// for the fraction, times the unit; for a unit below the second, the
/// number divided down, plus one second for the remainder and one for the
/// fraction.
pub open spec fn span_secs(st: SpanScan) -> int {
    let (unit, div) = unit_of(st.letters, st.a, st.b, st.c);
    if div == 1 {
        (st.number + 1) * unit
    } else {
        st.number / div + 2
    }
}

/// The bound after closing the open span.
pub open spec fn closed_total(st: SpanScan) -> u128 {
    capped(st.total + span_secs(st))
}

pub open spec fn scan_step(st: SpanScan, c: char) -> SpanScan {
    if is_unit_letter(c) {
        if st.letters == 0 {
            SpanScan { letters: 1, a: c, ..st }
        } else if st.letters == 1 {
            SpanScan { letters: 2, b: c, ..st }
        } else if st.letters == 2 {
            SpanScan { letters: 3, c: c, ..st }
        } else {
            st
        }
    } else if st.letters > 0 {
        SpanScan {
            total: closed_total(st),
            number: if is_digit(c) {
                (c as int - '0' as int) as u128
            } else {
                0
            },
            letters: 0,
            a: ' ',
            b: ' ',
            c: ' ',
            fraction: c == '.',
        }
    } else if c == '.' {
        SpanScan { fraction: true, ..st }
    } else if is_digit(c) && !st.fraction {
        SpanScan { number: capped(st.number * 10 + (c as int - '0' as int)), ..st }
    } else {
        st
    }
}

pub open spec fn scan(s: Seq<char>) -> SpanScan
    decreases s.len(),
{
    if s.len() == 0 {
        scan_start()
    } else {
        scan_step(scan(s.drop_last()), s.last())
    }
}

/// An upper bound on the seconds that a time-to-live text spells, capped at
/// `SECS_CAP`: the sum of what each span can add.
pub open spec fn duration_bound(s: Seq<char>) -> u128 {
    closed_total(scan(s))
}

/// A time-to-live text that humantime can read without overflow: its bound
/// stays under `u64::MAX` seconds. humantime sums the spans into a
/// `Duration`; each span adds at most its integer part times the unit and,
/// for the fraction, less than one unit more (below the second: the number
/// divided down and less than a second more), so the running total of whole
/// seconds never exceeds the bound. humantime panics only when that total
/// reaches `u64::MAX` with a full second of nanoseconds pending, and
/// otherwise reports overflow as an error. A text that this excludes but
/// humantime reads spells at least `u64::MAX` seconds less, for each of its
/// spans, one unit or two seconds.
pub open spec fn duration_text_ok(s: Seq<char>) -> bool {
    duration_bound(s) < SECS_CAP
}

/// Relies on humantime::parse_duration: the duration a text such as `1h`
/// or `2h 37min` spells, taken here in whole seconds; `None` when the text
/// is no duration.
#[verifier::external_body]
fn parse_duration_secs(s: &str) -> (r: Option<u64>)
    requires
        duration_text_ok(s@),
    ensures
        r == duration_secs_of(s@),
{
    humantime::parse_duration(s).ok().map(|d| d.as_secs())
}

/// Server configuration.
pub struct Config {
    /// address to bind
    pub address: String,
    /// worker count
    pub workers: Option<usize>,
    /// local path to file upload
    pub upload_path: String,
    /// max content length
    pub max_content_length: usize,
    pub delete_expired_enabled: Option<bool>,
    /// time-to-live of a paste, in seconds
    pub delete_expired_ttl: Option<u64>,
}

#[derive(Clone, Copy, Debug, PartialEq, Eq, Structural)]
pub enum ConfigErrorKind {
    /// a required key is absent
    Missing,
    /// a value does not read as its key's type
    Invalid,
}

/// The first key that could not be read, and why.
pub struct ConfigError {
    pub key: String,
    pub kind: ConfigErrorKind,
}

pub type Entries = Seq<(Seq<char>, Seq<char>)>;

pub open spec fn entries_view(e: Seq<(String, String)>) -> Entries {
    e.map_values(|p: (String, String)| (p.0@, p.1@))
}

/// The value of the first entry with the given key.
pub open spec fn lookup(e: Entries, key: Seq<char>) -> Option<Seq<char>>
    decreases e.len(),
{
    if e.len() == 0 {
        None
    } else if e[0].0 == key {
        Some(e[0].1)
    } else {
        lookup(e.drop_first(), key)
    }
}

pub open spec fn is_digit(c: char) -> bool {
    '0' <= c && c <= '9'
}

/// An integer that fits in `usize`, as the config crate reads it.
pub open spec fn usize_of(s: Seq<char>) -> Option<usize> {
    match int_of(s) {
        Some(i) => if 0 <= i && i <= usize::MAX {
            Some(i as usize)
        } else {
            None
        },
        None => None,
    }
}

pub open spec fn string_field(e: Entries, key: Seq<char>) -> Result<Seq<char>, ConfigErrorKind> {
    match lookup(e, key) {
        Some(v) => Ok(v),
        None => Err(ConfigErrorKind::Missing),
    }
}

pub open spec fn usize_field(e: Entries, key: Seq<char>) -> Result<usize, ConfigErrorKind> {
    match lookup(e, key) {
        Some(v) => match usize_of(v) {
            Some(n) => Ok(n),
            None => Err(ConfigErrorKind::Invalid),
        },
        None => Err(ConfigErrorKind::Missing),
    }
}

pub open spec fn opt_usize_field(e: Entries, key: Seq<char>) -> Result<Option<usize>, ConfigErrorKind> {
    match lookup(e, key) {
        Some(v) => match usize_of(v) {
            Some(n) => Ok(Some(n)),
            None => Err(ConfigErrorKind::Invalid),
        },
        None => Ok(None),
    }
}

pub open spec fn opt_bool_field(e: Entries, key: Seq<char>) -> Result<Option<bool>, ConfigErrorKind> {
    match lookup(e, key) {
        Some(v) => match flag_of(v) {
            Some(b) => Ok(Some(b)),
            None => Err(ConfigErrorKind::Invalid),
        },
        None => Ok(None),
    }
}

pub open spec fn opt_duration_field(e: Entries, key: Seq<char>) -> Result<Option<u64>, ConfigErrorKind> {
    match lookup(e, key) {
        Some(v) => if !duration_text_ok(v) {
            Err(ConfigErrorKind::Invalid)
        } else {
            match duration_secs_of(v) {
                Some(d) => Ok(Some(d)),
                None => Err(ConfigErrorKind::Invalid),
            }
        },
        None => Ok(None),
    }
}

/// The first key, in the order of the fields of `Config`, that cannot be
/// read, with the reason; `None` when every key reads.
pub open spec fn config_error(e: Entries) -> Option<(Seq<char>, ConfigErrorKind)> {
    if string_field(e, "address"@) is Err {
        Some(("address"@, string_field(e, "address"@)->Err_0))
    } else if opt_usize_field(e, "workers"@) is Err {
        Some(("workers"@, opt_usize_field(e, "workers"@)->Err_0))
    } else if string_field(e, "upload_path"@) is Err {
        Some(("upload_path"@, string_field(e, "upload_path"@)->Err_0))
    } else if usize_field(e, "max_content_length"@) is Err {
        Some(("max_content_length"@, usize_field(e, "max_content_length"@)->Err_0))
    } else if opt_bool_field(e, "delete_expired_enabled"@) is Err {
        Some(("delete_expired_enabled"@, opt_bool_field(e, "delete_expired_enabled"@)->Err_0))
    } else if opt_duration_field(e, "delete_expired_ttl"@) is Err {
        Some(("delete_expired_ttl"@, opt_duration_field(e, "delete_expired_ttl"@)->Err_0))
    } else {
        None
    }
}

/// Whether two strings hold the same characters.
pub fn str_eq(a: &str, b: &str) -> (r: bool)
    ensures
        r == (a@ == b@),
{
    let n = a.unicode_len();
    if n != b.unicode_len() {
        return false;
    }
    let mut i: usize = 0;
    while i < n
        invariant
            n == a@.len() == b@.len(),
            0 <= i <= n,
            forall|j: int| 0 <= j < i ==> a@[j] == b@[j],
        decreases n - i,
    {
        if a.get_char(i) != b.get_char(i) {
            return false;
        }
        i = i + 1;
    }
    assert(a@ =~= b@);
    true
}

/// The value of the first entry with key `key`.
pub fn find<'a>(entries: &'a Vec<(String, String)>, key: &str) -> (r: Option<&'a String>)
    ensures
        r matches Some(v) ==> lookup(entries_view(entries@), key@) == Some(v@),
        r is None ==> lookup(entries_view(entries@), key@) is None,
{
    let ghost e = entries_view(entries@);
    assert(e.subrange(0, e.len() as int) =~= e);
    let mut i: usize = 0;
    while i < entries.len()
        invariant
            0 <= i <= entries@.len(),
            e == entries_view(entries@),
            lookup(e, key@) == lookup(e.subrange(i as int, e.len() as int), key@),
        decreases entries@.len() - i,
    {
        assert(e.subrange(i as int, e.len() as int).drop_first() =~= e.subrange(
            i + 1,
            e.len() as int,
        ));
        if str_eq(entries[i].0.as_str(), key) {
            return Some(&entries[i].1);
        }
        i = i + 1;
    }
    None
}

/// An integer that fits in `usize`, as the config crate reads it.
pub fn read_usize(s: &str) -> (r: Option<usize>)
    ensures
        r == usize_of(s@),
{
    match read_int(s) {
        Some(i) => if i < 0 {
            None
        } else if (i as u64) > (usize::MAX as u64) {
            None
        } else {
            Some(i as usize)
        },
        None => None,
    }
}

fn unit_of_letters(letters: u8, a: char, b: char, c: char) -> (r: (u128, u128))
    ensures
        r == unit_of(letters, a, b, c),
{
    if letters == 0 {
        (YEAR_SECS, 1)
    } else if a == 'n' {
        (1, 1_000_000_000)
    } else if a == 'u' || a == '\u{b5}' {
        (1, 1_000_000)
    } else if a == 's' {
        (1, 1)
    } else if a == 'h' {
        (3600, 1)
    } else if a == 'd' {
        (86400, 1)
    } else if a == 'w' {
        (604800, 1)
    } else if a == 'M' {
        (2_630_016, 1)
    } else if a == 'm' {
        if letters == 1 {
            (60, 1)
        } else if b == 's' {
            (1, 1000)
        } else if b == 'o' {
            (2_630_016, 1)
        } else if b == 'i' {
            if letters >= 3 && c == 'l' {
                (1, 1000)
            } else {
                (60, 1)
            }
        } else {
            (YEAR_SECS, 1)
        }
    } else {
        (YEAR_SECS, 1)
    }
}

fn scan_next(st: SpanScan, c: char) -> (r: SpanScan)
    requires
        scan_ok(st),
    ensures
        r == scan_step(st, c),
        scan_ok(r),
{
    let letter = ('a' <= c && c <= 'z') || ('A' <= c && c <= 'Z') || c == '\u{b5}';
    if letter {
        if st.letters == 0 {
            SpanScan { letters: 1, a: c, ..st }
        } else if st.letters == 1 {
            SpanScan { letters: 2, b: c, ..st }
        } else if st.letters == 2 {
            SpanScan { letters: 3, c: c, ..st }
        } else {
            st
        }
    } else if st.letters > 0 {
        let total = close_span(st);
        let number: u128 = if '0' <= c && c <= '9' {
            (c as u32 - '0' as u32) as u128
        } else {
            0
        };
        SpanScan { total, number, letters: 0, a: ' ', b: ' ', c: ' ', fraction: c == '.' }
    } else if c == '.' {
        SpanScan { fraction: true, ..st }
    } else if '0' <= c && c <= '9' && !st.fraction {
        let d = (c as u32 - '0' as u32) as u128;
        let n = st.number * 10 + d;
        SpanScan { number: if n > SECS_CAP { SECS_CAP } else { n }, ..st }
    } else {
        st
    }
}

fn close_span(st: SpanScan) -> (r: u128)
    requires
        scan_ok(st),
    ensures
        r == closed_total(st),
{
    let (unit, div) = unit_of_letters(st.letters, st.a, st.b, st.c);
    let add = if div == 1 {
        assert((st.number + 1) * unit <= (SECS_CAP + 1) * YEAR_SECS) by (nonlinear_arith)
            requires
                st.number <= SECS_CAP,
                unit <= YEAR_SECS,
        ;
        (st.number + 1) * unit
    } else {
        st.number / div + 2
    };
    let x = st.total + add;
    if x > SECS_CAP {
        SECS_CAP
    } else {
        x
    }
}

/// Whether a time-to-live text can be read without overflow.
pub fn duration_text_fits(s: &str) -> (r: bool)
    ensures
        r == duration_text_ok(s@),
{
    let n = s.unicode_len();
    let mut st = SpanScan { total: 0, number: 0, letters: 0, a: ' ', b: ' ', c: ' ', fraction: false };
    let mut i: usize = 0;
    assert(s@.take(0) =~= Seq::<char>::empty());
    while i < n
        invariant
            n == s@.len(),
            0 <= i <= n,
            st == scan(s@.take(i as int)),
            scan_ok(st),
        decreases n - i,
    {
        let c = s.get_char(i);
        assert(s@.take(i + 1).drop_last() =~= s@.take(i as int));
        assert(s@.take(i + 1).last() == c);
        st = scan_next(st, c);
        i = i + 1;
    }
    assert(s@.take(n as int) =~= s@);
    close_span(st) < SECS_CAP
}

fn string_value(entries: &Vec<(String, String)>, key: &str) -> (r: Result<String, ConfigErrorKind>)
    ensures
        r matches Ok(v) ==> string_field(entries_view(entries@), key@) == Ok::<Seq<char>, ConfigErrorKind>(v@),
        r matches Err(k) ==> string_field(entries_view(entries@), key@) == Err::<Seq<char>, ConfigErrorKind>(k),
{
    match find(entries, key) {
        Some(v) => Ok(v.clone()),
        None => Err(ConfigErrorKind::Missing),
    }
}

fn usize_value(entries: &Vec<(String, String)>, key: &str) -> (r: Result<usize, ConfigErrorKind>)
    ensures
        r == usize_field(entries_view(entries@), key@),
{
    match find(entries, key) {
        Some(v) => match read_usize(v.as_str()) {
            Some(n) => Ok(n),
            None => Err(ConfigErrorKind::Invalid),
        },
        None => Err(ConfigErrorKind::Missing),
    }
}

fn opt_usize_value(entries: &Vec<(String, String)>, key: &str) -> (r: Result<Option<usize>, ConfigErrorKind>)
    ensures
        r == opt_usize_field(entries_view(entries@), key@),
{
    match find(entries, key) {
        Some(v) => match read_usize(v.as_str()) {
            Some(n) => Ok(Some(n)),
            None => Err(ConfigErrorKind::Invalid),
        },
        None => Ok(None),
    }
}

fn opt_bool_value(entries: &Vec<(String, String)>, key: &str) -> (r: Result<Option<bool>, ConfigErrorKind>)
    ensures
        r == opt_bool_field(entries_view(entries@), key@),
{
    match find(entries, key) {
        Some(v) => match read_flag(v.as_str()) {
            Some(b) => Ok(Some(b)),
            None => Err(ConfigErrorKind::Invalid),
        },
        None => Ok(None),
    }
}

fn opt_duration_value(entries: &Vec<(String, String)>, key: &str) -> (r: Result<Option<u64>, ConfigErrorKind>)
    ensures
        r == opt_duration_field(entries_view(entries@), key@),
{
    match find(entries, key) {
        Some(v) => if !duration_text_fits(v.as_str()) {
            Err(ConfigErrorKind::Invalid)
        } else {
            match parse_duration_secs(v.as_str()) {
                Some(d) => Ok(Some(d)),
                None => Err(ConfigErrorKind::Invalid),
            }
        },
        None => Ok(None),
    }
}

fn config_error_at(key: &str, kind: ConfigErrorKind) -> (r: ConfigError)
    ensures
        r.key@ == key@,
        r.kind == kind,
{
    ConfigError { key: String::from_str(key), kind }
}

impl Config {
    /// Reads the configuration from the key/value entries of its file.
    /// Succeeds exactly when every key reads; otherwise names the first key,
    /// in the order of the fields, that is missing or does not read as its
    /// type.
    pub fn from(entries: &Vec<(String, String)>) -> (r: Result<Config, ConfigError>)
        ensures
            r is Ok <==> config_error(entries_view(entries@)) is None,
            r matches Err(err) ==> config_error(entries_view(entries@)) == Some((err.key@, err.kind)),
            r matches Ok(c) ==> {
                let e = entries_view(entries@);
                &&& string_field(e, "address"@) == Ok::<Seq<char>, ConfigErrorKind>(c.address@)
                &&& opt_usize_field(e, "workers"@) == Ok::<Option<usize>, ConfigErrorKind>(c.workers)
                &&& string_field(e, "upload_path"@) == Ok::<Seq<char>, ConfigErrorKind>(c.upload_path@)
                &&& usize_field(e, "max_content_length"@) == Ok::<usize, ConfigErrorKind>(c.max_content_length)
                &&& opt_bool_field(e, "delete_expired_enabled"@) == Ok::<Option<bool>, ConfigErrorKind>(
                    c.delete_expired_enabled,
                )
                &&& opt_duration_field(e, "delete_expired_ttl"@) == Ok::<Option<u64>, ConfigErrorKind>(
                    c.delete_expired_ttl,
                )
            },
    {
        let address = match string_value(entries, "address") {
            Ok(v) => v,
            Err(k) => return Err(config_error_at("address", k)),
        };
        let workers = match opt_usize_value(entries, "workers") {
            Ok(v) => v,
            Err(k) => return Err(config_error_at("workers", k)),
        };
        let upload_path = match string_value(entries, "upload_path") {
            Ok(v) => v,
            Err(k) => return Err(config_error_at("upload_path", k)),
        };
        let max_content_length = match usize_value(entries, "max_content_length") {
            Ok(v) => v,
            Err(k) => return Err(config_error_at("max_content_length", k)),
        };
        let delete_expired_enabled = match opt_bool_value(entries, "delete_expired_enabled") {
            Ok(v) => v,
            Err(k) => return Err(config_error_at("delete_expired_enabled", k)),
        };
        let delete_expired_ttl = match opt_duration_value(entries, "delete_expired_ttl") {
            Ok(v) => v,
            Err(k) => return Err(config_error_at("delete_expired_ttl", k)),
        };
        Ok(
            Config {
                address,
                workers,
                upload_path,
                max_content_length,
                delete_expired_enabled,
                delete_expired_ttl,
            },
        )
    }
}

} // verus!
