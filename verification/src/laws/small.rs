//! Logging, dates, numbers, seeds and PEM files.

use crate::calendar;
use crate::laws::room as raw;
use crate::logctl;
use crate::logctl::{Level, LevelFilter, LogControl, MicLogMode};
use crate::mixer;
use crate::session;
use crate::text;
use crate::tls;
use crate::tls::Sections;
use vstd::prelude::*;

verus! {

// ---- logging ----

/// A level lets through its own records and all that are graver, and none that is less
/// grave; `Off` lets through nothing.
pub proof fn law_what_a_level_lets_through(f: LevelFilter, l: Level)
    ensures
        ({
            let passes = logctl::level_rank(l) <= logctl::filter_code(f);
            &&& f is Off ==> !passes
            &&& f is Error ==> (passes <==> l is Error)
            &&& f is Warn ==> (passes <==> l is Error || l is Warn)
            &&& f is Info ==> (passes <==> l is Error || l is Warn || l is Info)
            &&& f is Debug ==> (passes <==> !(l is Trace))
            &&& f is Trace ==> passes
        }),
{
}

/// Each level has its name, whatever the case in which it is written, and nothing else names
/// a level.
pub proof fn law_what_names_a_level(s: Seq<char>)
    ensures
        logctl::filter_named(s) == Some(LevelFilter::Off) <==> text::lower(s) == "off"@,
        logctl::filter_named(s) == Some(LevelFilter::Error) <==> text::lower(s) == "error"@,
        logctl::filter_named(s) == Some(LevelFilter::Warn) <==> text::lower(s) == "warn"@,
        logctl::filter_named(s) == Some(LevelFilter::Info) <==> text::lower(s) == "info"@,
        logctl::filter_named(s) == Some(LevelFilter::Debug) <==> text::lower(s) == "debug"@,
        logctl::filter_named(s) == Some(LevelFilter::Trace) <==> text::lower(s) == "trace"@,
{
    reveal_strlit("off");
    reveal_strlit("error");
    reveal_strlit("warn");
    reveal_strlit("info");
    reveal_strlit("debug");
    reveal_strlit("trace");
    assert("off"@.len() == 3 && "warn"@.len() == 4 && "info"@.len() == 4);
    assert("error"@.len() == 5 && "debug"@.len() == 5 && "trace"@.len() == 5);
    assert("warn"@[0] != "info"@[0]);
    assert("error"@[0] != "debug"@[0] && "error"@[0] != "trace"@[0] && "debug"@[0] != "trace"@[0]);
}

/// Each mode has its name, whatever the case in which it is written, and nothing else names a
/// mode.
pub proof fn law_what_names_a_mode(s: Seq<char>)
    ensures
        logctl::mic_named(s) == Some(MicLogMode::Off) <==> text::lower(s) == "off"@,
        logctl::mic_named(s) == Some(MicLogMode::MixedOnly) <==> text::lower(s) == "mixed"@,
        logctl::mic_named(s) == Some(MicLogMode::SoloOnly) <==> text::lower(s) == "solo"@,
        logctl::mic_named(s) == Some(MicLogMode::All) <==> text::lower(s) == "all"@,
{
    reveal_strlit("off");
    reveal_strlit("mixed");
    reveal_strlit("solo");
    reveal_strlit("all");
    assert("off"@.len() == 3 && "mixed"@.len() == 5 && "solo"@.len() == 4 && "all"@.len() == 3);
    assert("off"@[0] != "all"@[0]);
}

/// A transition is logged in a room of several by the modes for mixed rooms and for all, in
/// a room of one by those for solo rooms and for all.
pub proof fn law_which_transitions_are_logged(m: MicLogMode)
    ensures
        logctl::mic_allowed(m, true) <==> m is MixedOnly || m is All,
        logctl::mic_allowed(m, false) <==> m is SoloOnly || m is All,
{
}

/// What a setting is stored as reads back.
pub proof fn law_codes_read_back(f: LevelFilter, m: MicLogMode, v: u8)
    ensures
        logctl::filter_of_code(logctl::filter_code(f)) == f,
        logctl::mic_of_code(logctl::mic_code(m)) == m,
        v >= 5 ==> logctl::filter_of_code(v) is Trace,
        v >= 3 ==> logctl::mic_of_code(v) is All,
{
}

/// The column of a level is its name in capitals, with blanks up to five columns.
pub proof fn law_the_column_of_a_level(l: Level, i: int)
    requires
        0 <= i < 5,
    ensures
        ({
            let column = logctl::level_column(l);
            let name = logctl::filter_name(
                match l {
                    Level::Error => LevelFilter::Error,
                    Level::Warn => LevelFilter::Warn,
                    Level::Info => LevelFilter::Info,
                    Level::Debug => LevelFilter::Debug,
                    Level::Trace => LevelFilter::Trace,
                },
            );
            &&& column.len() == 5
            &&& i < name.len() ==> 'A' <= column[i] <= 'Z' && text::lower_char(column[i])
                == name[i]
            &&& i >= name.len() ==> column[i] == ' '
        }),
{
    reveal_strlit("error");
    reveal_strlit("warn");
    reveal_strlit("info");
    reveal_strlit("debug");
    reveal_strlit("trace");
    reveal_strlit("ERROR");
    reveal_strlit("WARN ");
    reveal_strlit("INFO ");
    reveal_strlit("DEBUG");
    reveal_strlit("TRACE");
}

// ---- dates and numbers ----

/// Every fourth year is a leap year, but of the centuries only every fourth.
pub proof fn law_which_years_are_leap_years(y: int)
    ensures
        calendar::year_len(y) == if y % 400 == 0 {
            366nat
        } else if y % 100 == 0 {
            365nat
        } else if y % 4 == 0 {
            366nat
        } else {
            365nat
        },
{
}

/// The months of a year, whose days make up the year.
pub proof fn law_how_long_the_months_are(y: int)
    ensures
        calendar::month_len(y, 1) == 31,
        calendar::month_len(y, 2) == calendar::year_len(y) - 337,
        calendar::month_len(y, 3) == 31,
        calendar::month_len(y, 4) == 30,
        calendar::month_len(y, 5) == 31,
        calendar::month_len(y, 6) == 30,
        calendar::month_len(y, 7) == 31,
        calendar::month_len(y, 8) == 31,
        calendar::month_len(y, 9) == 30,
        calendar::month_len(y, 10) == 31,
        calendar::month_len(y, 11) == 30,
        calendar::month_len(y, 12) == 31,
{
}

/// The day after a day is the next one of its month, or the first of the next month, or the
/// first of January; and it all begins with the first of January 1970.
#[verifier::spinoff_prover]
pub proof fn law_the_day_after(days: nat)
    ensures
        calendar::date_after(0) == (1970int, 1int, 1int),
        ({
            let (y, m, d) = calendar::date_after(days);
            calendar::date_after(days + 1) == if d < calendar::month_len(y, m) {
                (y, m, d + 1)
            } else if m < 12 {
                (y, m + 1, 1int)
            } else {
                (y + 1, 1int, 1int)
            }
        }),
{
    lemma_year_after(1970, days);
    calendar::lemma_year_counted(1970, days);
    reveal_with_fuel(calendar::count_months, 13);
}

proof fn lemma_year_after(y: int, n: nat)
    ensures
        ({
            let (a, rest) = calendar::count_years(y, n);
            calendar::count_years(y, n + 1) == if rest + 1 < calendar::year_len(a) {
                (a, rest + 1)
            } else {
                (a + 1, 0nat)
            }
        }),
    decreases n,
{
    if n >= calendar::year_len(y) {
        lemma_year_after(y + 1, (n - calendar::year_len(y)) as nat);
        assert((n + 1 - calendar::year_len(y)) as nat == (n - calendar::year_len(y)) as nat + 1);
    } else if n + 1 == calendar::year_len(y) {
        assert(calendar::count_years(y + 1, 0) == (y + 1, 0nat));
    }
}

/// A number in decimal digits reads back, however large.
pub proof fn law_every_number_reads_back(n: nat)
    ensures
        text::number(text::decimal(n)) == n,
        n > 0 ==> text::decimal(n)[0] != '0',
    decreases n,
{
    let d = text::decimal(n);
    if n < 10 {
        assert(d.drop_last() =~= Seq::<char>::empty());
        assert(text::number(d.drop_last()) == 0);
        assert(text::digit_value(text::digit_char(n)) == n);
    } else {
        law_every_number_reads_back(n / 10);
        assert(d.drop_last() =~= text::decimal(n / 10));
        assert(text::digit_value(text::digit_char(n % 10)) == n % 10);
        assert(text::decimal(n / 10).len() > 0);
        assert(d[0] == text::decimal(n / 10)[0]);
    }
}

// ---- seeds ----

/// The nanoseconds are moved up by 13 places, and what goes out at the top comes in below.
pub proof fn law_how_a_seed_is_turned(t: u32)
    ensures
        session::rotated(t) == (t as int * 8192) % 0x1_0000_0000 + t as int / 0x8_0000,
{
    assert((t << 13u32) | (t >> 19u32) == (t as u64 * 8192) % 0x1_0000_0000 + (t as u64)
        / 0x8_0000) by (bit_vector);
}

// ---- PEM files ----

/// A file gives all of its certificates, in order; one without any is refused, and so is one
/// that cannot be read, with the reason.
pub proof fn law_which_certificates_are_taken(path: Seq<char>, found: Sections)
    ensures
        found matches Ok(items) && items.len() > 0 ==> tls::certificates_of(path, found) == found,
        found matches Ok(items) && items.len() == 0 ==> tls::certificates_of(path, found) == Err::<
            Seq<Seq<u8>>,
            Seq<char>,
        >(path + " contained no certificates"@),
        found matches Err(e) ==> tls::certificates_of(path, found) == Err::<
            Seq<Seq<u8>>,
            Seq<char>,
        >(path + ": "@ + e),
{
}

/// The key is the first one of the first form that has any; a form that cannot be read
/// before that one is the reason of a refusal, and a file without any key is refused.
pub proof fn law_which_key_is_taken(path: Seq<char>, forms: Seq<Sections>, i: int)
    requires
        0 <= i <= forms.len(),
        forall|k: int|
            0 <= k < i ==> (#[trigger] forms[k]) is Ok && forms[k]->Ok_0.len() == 0,
    ensures
        i < forms.len() && forms[i] is Ok && forms[i]->Ok_0.len() > 0 ==> tls::key_among(
            path,
            forms,
        ) == Ok::<Seq<u8>, Seq<char>>(forms[i]->Ok_0[0]),
        i < forms.len() && forms[i] is Err ==> tls::key_among(path, forms) == Err::<
            Seq<u8>,
            Seq<char>,
        >(path + ": "@ + forms[i]->Err_0),
        i == forms.len() ==> tls::key_among(path, forms) == Err::<Seq<u8>, Seq<char>>(
            path + " contained no usable private key"@,
        ),
    decreases forms.len(),
{
    if i > 0 {
        let rest = forms.skip(1);
        assert(forms[0] is Ok && forms[0]->Ok_0.len() == 0);
        assert forall|k: int| 0 <= k < i - 1 implies (#[trigger] rest[k]) is Ok
            && rest[k]->Ok_0.len() == 0 by {
            assert(rest[k] == forms[k + 1]);
        }
        if i < forms.len() {
            assert(rest[i - 1] == forms[i]);
        }
        law_which_key_is_taken(path, rest, i - 1);
    }
}

// ---- the calls ----

/// What is set is in force from then on, under the name that was given; what names nothing
/// is refused and changes nothing. The other setting stays as it is either way.
pub proof fn law_set_level(
    ctl: &mut LogControl,
    s: &str,
    r: Result<&'static str, String>,
    before: &LogControl,
    after: &LogControl,
    was: &'static str,
    is: &'static str,
)
    requires
        call_ensures(logctl::set_level, (ctl, s), r),
        *before == *old(ctl),
        *after == *final(ctl),
        call_ensures(logctl::get_level, (before,), was),
        call_ensures(logctl::get_level, (after,), is),
    ensures
        ({
            let name = text::lower(s@);
            let known = name == "off"@ || name == "error"@ || name == "warn"@ || name == "info"@
                || name == "debug"@ || name == "trace"@;
            &&& r is Ok <==> known
            &&& r matches Ok(n) ==> n@ == name && is@ == name
            &&& r matches Err(e) ==> is@ == was@ && e@ == "unknown level "@ + text::debug_form(name)
                + ": expected off|error|warn|info|debug|trace"@
            &&& final(ctl).mic_mode() == old(ctl).mic_mode()
        }),
{
}

/// A mode that is set is in force from then on, under the name that was given; what names
/// nothing is refused and changes nothing. The other setting stays as it is either way.
pub proof fn law_set_mic_mode(
    ctl: &mut LogControl,
    s: &str,
    r: Result<&'static str, String>,
    before: &LogControl,
    after: &LogControl,
    was: &'static str,
    is: &'static str,
)
    requires
        call_ensures(logctl::set_mic_mode, (ctl, s), r),
        *before == *old(ctl),
        *after == *final(ctl),
        call_ensures(logctl::get_mic_mode, (before,), was),
        call_ensures(logctl::get_mic_mode, (after,), is),
    ensures
        ({
            let name = text::lower(s@);
            let known = name == "off"@ || name == "mixed"@ || name == "solo"@ || name == "all"@;
            &&& r is Ok <==> known
            &&& r matches Ok(n) ==> n@ == name && is@ == name
            &&& r matches Err(e) ==> is@ == was@ && e@ == "unknown mic-log mode "@
                + text::debug_form(name) + ": expected off|mixed|solo|all"@
            &&& final(ctl).filter() == old(ctl).filter()
        }),
{
}

/// What passes and what is logged goes by the settings in force: the names tell which.
pub proof fn law_what_is_in_force(
    ctl: &LogControl,
    level: Level,
    mixed: bool,
    name: &'static str,
    mode: &'static str,
    passes: bool,
    allowed: bool,
)
    requires
        call_ensures(logctl::get_level, (ctl,), name),
        call_ensures(logctl::get_mic_mode, (ctl,), mode),
        call_ensures(logctl::enabled, (ctl, level), passes),
        call_ensures(logctl::mic_log_allowed, (ctl, mixed), allowed),
    ensures
        name@ == "off"@ ==> !passes,
        name@ == "error"@ ==> (passes <==> level is Error),
        name@ == "warn"@ ==> (passes <==> level is Error || level is Warn),
        name@ == "info"@ ==> (passes <==> level is Error || level is Warn || level is Info),
        name@ == "debug"@ ==> (passes <==> !(level is Trace)),
        name@ == "trace"@ ==> passes,
        mode@ == "off"@ ==> !allowed,
        mode@ == "mixed"@ ==> allowed == mixed,
        mode@ == "solo"@ ==> allowed == !mixed,
        mode@ == "all"@ ==> allowed,
{
    law_what_names_a_level(name@);
    law_what_names_a_mode(mode@);
    logctl::law_level_name_reads_back(ctl.filter());
    logctl::law_mic_name_reads_back(ctl.mic_mode());
    reveal_strlit("off");
    reveal_strlit("error");
    reveal_strlit("warn");
    reveal_strlit("info");
    reveal_strlit("debug");
    reveal_strlit("trace");
    reveal_strlit("mixed");
    reveal_strlit("solo");
    reveal_strlit("all");
    assert(text::lower(name@) =~= name@);
    assert(text::lower(mode@) =~= mode@);
}

/// At the start errors alone are logged, and transitions in rooms of several.
pub proof fn law_new_control(ctl: LogControl)
    requires
        call_ensures(LogControl::new, (), ctl),
    ensures
        ctl.filter() is Error,
        ctl.mic_mode() is MixedOnly,
{
}

/// A line is the time, the level, the target and the message, in that order.
pub proof fn law_log_line(time: &str, level: Level, target: &str, message: &str, r: String)
    requires
        call_ensures(logctl::log_line, (time, level, target, message), r),
    ensures
        r@ == "["@ + time@ + " "@ + logctl::level_column(level) + " "@ + target@ + "] "@ + message@,
{
}

/// A timestamp names the instant that it was made of, up to the year 9999.
pub proof fn law_iso_timestamp(secs: u64, millis: u32, r: String)
    requires
        call_ensures(logctl::iso_timestamp, (secs, millis), r),
        secs < 253402300800,
        millis < 1000,
    ensures
        r@.len() == 24,
        logctl::instant(r@) == secs * 1000 + millis,
{
    let days = secs as nat / 86400;
    calendar::law_date_reads_back(days);
    calendar::law_date_is_of_the_calendar(days);
    let (y, m, d) = calendar::date_after(days);
    if y > 9999 {
        lemma_ten_thousand(y);
    }
    logctl::law_timestamp_reads_back(secs as nat, millis as nat);
    logctl::law_timestamp_shape(secs as nat, millis as nat);
}

/// The year 10000 begins 2932897 days after the start of 1970.
proof fn lemma_ten_thousand(y: int)
    requires
        y >= 10000,
    ensures
        calendar::days_before_year(y) >= 2932897,
    decreases y,
{
    calendar::lemma_ten_thousand_years();
    if y > 10000 {
        lemma_ten_thousand(y - 1);
    }
}

/// A date is as many days after the start of 1970 as it was made of.
pub proof fn law_civil_from_days(days: u64, r: (u64, u64, u64))
    requires
        call_ensures(calendar::civil_from_days, (days,), r),
    ensures
        calendar::days_until(r.0 as int, r.1 as int, r.2 as int) == days,
        1 <= r.1 <= 12,
        1 <= r.2 <= calendar::month_len(r.0 as int, r.1 as int),
{
    calendar::law_date_reads_back(days as nat);
    calendar::law_date_is_of_the_calendar(days as nat);
}

/// Two texts are the same exactly if they have the same characters; and the characters of a
/// text are those that it has.
pub proof fn law_texts(a: &str, b: &str, same: bool, chars: Vec<char>)
    requires
        call_ensures(text::same_text, (a, b), same),
        call_ensures(text::chars_of, (a,), chars),
    ensures
        same <==> a@ == b@,
        chars@ == a@,
{
}

/// A number is appended in digits that read back.
pub proof fn law_push_decimal(out: &mut String, n: u64)
    requires
        call_ensures(text::push_decimal, (out, n), ()),
    ensures
        final(out)@.len() > old(out)@.len(),
        final(out)@.take(old(out)@.len() as int) == old(out)@,
        text::number(final(out)@.skip(old(out)@.len() as int)) == n,
{
    law_every_number_reads_back(n as nat);
    assert(final(out)@.take(old(out)@.len() as int) =~= old(out)@);
    assert(final(out)@.skip(old(out)@.len() as int) =~= text::decimal(n as nat));
}

/// A number is appended in a fixed width, filled up with zeros, and reads back.
pub proof fn law_push_padded(out: &mut String, n: u64, width: u8)
    requires
        call_ensures(text::push_padded, (out, n, width), ()),
        2 <= width <= 4,
        n < if width == 2 {
            100u64
        } else if width == 3 {
            1000u64
        } else {
            10000u64
        },
    ensures
        final(out)@.len() == old(out)@.len() + width,
        final(out)@.take(old(out)@.len() as int) == old(out)@,
        text::number(final(out)@.skip(old(out)@.len() as int)) == n,
{
    text::law_numbers_read_back(n as nat, width as nat);
    assert(final(out)@.take(old(out)@.len() as int) =~= old(out)@);
    assert(final(out)@.skip(old(out)@.len() as int) =~= text::padded(n as nat, width as nat));
}

/// The frames of a packet hold its samples.
pub proof fn law_split_packet<S: Copy>(
    pcm: &Vec<S>,
    n: usize,
    silence: S,
    r: Vec<Vec<S>>,
    f: int,
    k: int,
)
    requires
        call_ensures(mixer::split_packet::<S>, (pcm, n, silence), r),
        n <= pcm@.len(),
        0 <= f < r@.len(),
        0 <= k < 960,
    ensures
        n <= r@.len() * 960 < n + 960,
        r@[f]@.len() == 960,
        f * 960 + k < n ==> r@[f]@[k] == pcm@[f * 960 + k],
        f * 960 + k >= n ==> r@[f]@[k] == silence,
{
    let packet = pcm@.take(n as int);
    raw::law_a_packet_keeps_its_samples(packet, silence);
    let frames = mixer::packet_frames(packet, silence);
    assert(mixer::frames_view(r@) == frames);
    assert(mixer::frames_view(r@)[f] == r@[f]@);
    assert(frames[f][k] == frames[f][k]);
}

/// The certificates and the key of a file are taken out of what was found in it.
pub proof fn law_pem_calls(
    path: &str,
    bytes: &Vec<u8>,
    certs: Result<Vec<Vec<u8>>, String>,
    key: Result<Vec<u8>, String>,
)
    requires
        call_ensures(tls::read_certificates, (path, bytes), certs),
        call_ensures(tls::read_private_key, (path, bytes), key),
    ensures
        tls::sections_view(certs) == tls::certificates_of(path@, tls::pem_certs(bytes@)),
        tls::pem_pkcs8_keys(bytes@) matches Ok(k) && k.len() > 0 ==> key is Ok && key->Ok_0@
            == tls::pem_pkcs8_keys(bytes@)->Ok_0[0],
        tls::pem_pkcs8_keys(bytes@) == Ok::<Seq<Seq<u8>>, Seq<char>>(Seq::empty()) && (
        tls::pem_rsa_keys(bytes@) matches Ok(k) && k.len() > 0) ==> key is Ok && key->Ok_0@
            == tls::pem_rsa_keys(bytes@)->Ok_0[0],
        tls::pem_pkcs8_keys(bytes@) == Ok::<Seq<Seq<u8>>, Seq<char>>(Seq::empty())
            && tls::pem_rsa_keys(bytes@) == Ok::<Seq<Seq<u8>>, Seq<char>>(Seq::empty()) && (
        tls::pem_ec_keys(bytes@) matches Ok(k) && k.len() > 0) ==> key is Ok && key->Ok_0@
            == tls::pem_ec_keys(bytes@)->Ok_0[0],
{
    let forms = seq![
        tls::pem_pkcs8_keys(bytes@),
        tls::pem_rsa_keys(bytes@),
        tls::pem_ec_keys(bytes@),
    ];
    law_which_key_is_taken(path@, forms, 0);
    if forms[0] == Ok::<Seq<Seq<u8>>, Seq<char>>(Seq::empty()) {
        law_which_key_is_taken(path@, forms, 1);
        if forms[1] == Ok::<Seq<Seq<u8>>, Seq<char>>(Seq::empty()) {
            law_which_key_is_taken(path@, forms, 2);
        }
    }
}

/// What a text names and what a setting is called and stored as.
pub proof fn law_names_and_codes(
    s: &str,
    f: LevelFilter,
    m: MicLogMode,
    v: u8,
    level: Result<LevelFilter, String>,
    mode: Result<MicLogMode, String>,
    level_called: &'static str,
    mode_called: &'static str,
    level_code: u8,
    mode_code: u8,
    level_of: LevelFilter,
    mode_of: MicLogMode,
)
    requires
        call_ensures(logctl::parse_level, (s,), level),
        call_ensures(logctl::parse_mic_mode, (s,), mode),
        call_ensures(logctl::level_name, (f,), level_called),
        call_ensures(MicLogMode::name, (m,), mode_called),
        call_ensures(logctl::level_code, (f,), level_code),
        call_ensures(MicLogMode::code, (m,), mode_code),
        call_ensures(logctl::level_filter_from_u8, (v,), level_of),
        call_ensures(MicLogMode::from_u8, (v,), mode_of),
    ensures
        level matches Ok(l) ==> logctl::filter_named(s@) == Some(l),
        level is Err <==> logctl::filter_named(s@) is None,
        mode matches Ok(x) ==> logctl::mic_named(s@) == Some(x),
        mode is Err <==> logctl::mic_named(s@) is None,
        logctl::filter_named(level_called@) == Some(f),
        logctl::mic_named(mode_called@) == Some(m),
        v == level_code ==> level_of == f,
        v == mode_code ==> mode_of == m,
{
    logctl::law_level_name_reads_back(f);
    logctl::law_mic_name_reads_back(m);
}

/// A timestamp starts with the year, however late it is, and ends with the 20 characters of
/// the rest.
pub proof fn law_the_year_of_a_timestamp(secs: nat, millis: nat)
    requires
        millis < 1000,
    ensures
        ({
            let t = logctl::timestamp(secs, millis);
            let year = calendar::date_after(secs / 86400).0;
            &&& t.len() >= 24
            &&& text::number(t.take(t.len() - 20)) == year
            &&& t[t.len() - 20] == '-'
        }),
{
    calendar::law_date_is_of_the_calendar(secs / 86400);
    let (y, m, d) = calendar::date_after(secs / 86400);
    let sod = secs % 86400;
    law_every_number_reads_back(y as nat);
    reveal_with_fuel(text::decimal, 4);
    assert(text::decimal(y as nat).len() >= 4);
    assert(text::padded(y as nat, 4) == text::decimal(y as nat));
    text::law_numbers_read_back(m as nat, 2);
    text::law_numbers_read_back(d as nat, 2);
    text::law_numbers_read_back(sod / 3600, 2);
    text::law_numbers_read_back((sod / 60) % 60, 2);
    text::law_numbers_read_back(sod % 60, 2);
    text::law_numbers_read_back(millis, 3);
    reveal_strlit("-");
    reveal_strlit("T");
    reveal_strlit(":");
    reveal_strlit(".");
    reveal_strlit("Z");
    let t = logctl::timestamp(secs, millis);
    assert(t.len() == text::decimal(y as nat).len() + 20);
    assert(t.take(t.len() - 20) =~= text::decimal(y as nat));
}

/// What was found in a file is taken as the laws on certificates and keys say.
pub proof fn law_pem_choices(
    path: &str,
    found: Result<Vec<Vec<u8>>, String>,
    forms: &Vec<Result<Vec<Vec<u8>>, String>>,
    certs: Result<Vec<Vec<u8>>, String>,
    key: Result<Vec<u8>, String>,
)
    requires
        call_ensures(tls::certificates, (path, found), certs),
        call_ensures(tls::private_key, (path, forms), key),
    ensures
        found matches Ok(items) && items@.len() > 0 ==> certs is Ok && tls::byte_views(
            certs->Ok_0@,
        ) == tls::byte_views(found->Ok_0@),
        found matches Ok(items) && items@.len() == 0 ==> certs is Err && certs->Err_0@ == path@
            + " contained no certificates"@,
        found matches Err(e) ==> certs is Err && certs->Err_0@ == path@ + ": "@ + e@,
        tls::key_view(key) == tls::key_among(path@, tls::all_sections(forms@)),
{
    if let Ok(items) = found {
        assert(tls::byte_views(items@).len() == items@.len());
    }
}

/// What a list of sections is: the bytes of each, or the words of the refusal.
pub proof fn law_what_sections_are(found: Result<Vec<Vec<u8>>, String>, i: int)
    ensures
        found matches Err(e) ==> tls::sections_view(found) == Err::<Seq<Seq<u8>>, Seq<char>>(e@),
        found matches Ok(items) && 0 <= i < items@.len() ==> tls::sections_view(found) is Ok
            && tls::sections_view(found)->Ok_0.len() == found->Ok_0@.len() && tls::sections_view(
            found,
        )->Ok_0[i] == found->Ok_0@[i]@,
{
}

} // verus!
