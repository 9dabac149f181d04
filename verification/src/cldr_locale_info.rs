//! CLDR supplemental locale information used by `Intl.Locale`.
//!
//! The grouped tables below transcribe CLDR's `calendarPreferenceData`, `timeData`, and the
//! first-day/weekend portion of `weekData`. They come from Unicode CLDR commit
//! 83a0a8e8ee0db41a6ee3caaa19c47ba4007070d5 (UTS #35, version 48.2). Grouping territories exactly
//! as CLDR does keeps this small enough to audit while still covering the complete data set.
use vstd::prelude::*;
use vstd::string::*;
use crate::text::{same_text, split_words, words};

verus! {

/// Calendars by preference for each group of regions.
pub const CALENDAR_PREFERENCES: [(&'static str, &'static str); 15] = [
    ("001", "gregorian"),
    (
        "BD DJ DZ EH ER ID IQ JO KM LB LY MA MR MY NE OM PK PS SD SY TD TN YE",
        "gregorian islamic islamic-civil islamic-tbla",
    ),
    ("AL AZ MV TJ TM TR UZ XK", "gregorian islamic-civil islamic-tbla"),
    ("AE BH KW QA", "gregorian islamic-umalqura islamic islamic-civil islamic-tbla"),
    ("AF IR", "persian gregorian islamic islamic-civil islamic-tbla"),
    ("CN CX HK MO SG", "gregorian chinese"),
    ("EG", "gregorian coptic islamic islamic-civil islamic-tbla"),
    ("ET", "gregorian ethiopic"),
    ("IL", "gregorian hebrew islamic islamic-civil islamic-tbla"),
    ("IN", "gregorian indian"),
    ("JP", "gregorian japanese"),
    ("KR", "gregorian dangi"),
    ("SA", "gregorian islamic-umalqura islamic islamic-rgsa"),
    ("TH", "buddhist gregorian"),
    ("TW", "gregorian roc chinese"),
];

/// Allowed time patterns, the preferred first, for each group of regions or language-regions.
pub const TIME_DATA: [(&'static str, &'static str); 25] = [
    ("AX BQ CP CZ DK FI ID IS ML NE RU SE SJ SK", "H"),
    ("001 BI BY FO GL HU MG MT MU MV NO PL TH TJ TM VN ZW", "H h"),
    (
        "AC AI BW BZ CC CK CX DG FK GB GG GI GS IE IM IO JE LT MK MN MS NF NG NR NU PN SH SX TA ZA en_IL",
        "H h hb hB",
    ),
    ("CF CM LU NP PF SC SM SN TF VA ca_ES fr_CA gl_ES it_CH it_IT", "H h hB"),
    ("AR CL EA IC KG KM LK MA PY UY af_ZA es_BR es_ES es_GQ", "H h hB hb"),
    ("JP", "H K h"),
    ("AF LA", "H hb hB h"),
    (
        "AD AM AO AT AW BE BF BJ BL BR CG CI CV CW DE EE FR GA GF GN GP GW HR HT IL IT KZ MC MD MF MQ MZ NC NL PM PT RE RO SI SR ST TG TR WF YT ZM ku_SY",
        "H hB",
    ),
    ("AZ BA BG CH GE LI ME RS UA UZ XK", "H hB h"),
    ("ES GQ", "H hB h hb"),
    ("CN LV TL zu_ZA", "H hB hb h"),
    ("CD IR", "H hB"),
    ("KE MM RW TZ UG", "H hB hb h"),
    ("AS BT DJ ER GH IN LS PG PW SO TO VU WS", "h H"),
    ("CY GR", "h H hb hB"),
    ("AL TD", "h H hB"),
    ("419 BO CO CR CU DO EC GT HN KP KR MX NI NA PA PE PR SV VE", "h H hB hb"),
    (
        "AG AU BB BM BS CA DM FJ FM GD GM GU GY JM KI KN KY LC LR MH MP MW NZ SB SG SL SS SZ TC TT UM US VC VG VI en_001 en_HK en_MY",
        "h hb H hB",
    ),
    ("BD PK", "h hB H"),
    (
        "AE BH DZ EG EH HK IQ JO KW LB LY MO MR OM PH PS QA SA SD SY TN YE ar_001",
        "h hB hb H",
    ),
    ("BN MY", "h hb hB H"),
    ("hi_IN kn_IN ml_IN te_IN", "hB h H"),
    ("KH", "hB h H hb"),
    ("ta_IN", "hB h hb H"),
    ("TW ET gu_IN mr_IN pa_IN", "hB hb h H"),
];

/// The regions in which a week begins on each day.
pub const FIRST_DAY_DATA: [(&'static str, &'static str); 4] = [
    (
        "mon",
        "001 AD AE AI AL AM AN AR AT AU AX AZ BA BE BG BM BN BY CH CL CM CN CR CY CZ DE DK EC EE ES FI FJ FO FR GB GE GF GP GR HR HU IE IT KG KZ LB LI LK LT LU LV MC MD ME MK MN MQ MY NL NO NZ PL RE RO RS RU SE SI SK SM TJ TM TR UA UY UZ VA VN XK",
    ),
    ("fri", "MV"),
    ("sat", "AF BH DJ DZ EG IQ IR JO KW LY OM QA SD SY"),
    (
        "sun",
        "AG AS BD BR BS BT BW BZ CA CO DM DO ET GT GU HK HN ID IL IN IS JM JP KE KH KR LA MH MM MO MT MX MZ NI NP PA PE PH PK PR PT PY SA SG SV TH TT TW UM US VE VI WS YE ZA ZW",
    ),
];

/// The regions in which a weekend begins on each day.
pub const WEEKEND_START_DATA: [(&'static str, &'static str); 4] = [
    ("thu", "AF"),
    ("fri", "BH DZ EG IL IQ IR JO KW LY OM QA SA SD SY YE"),
    ("sat", "001"),
    ("sun", "IN UG"),
];

/// The regions in which a weekend ends on each day.
pub const WEEKEND_END_DATA: [(&'static str, &'static str); 3] = [
    ("fri", "AF IR"),
    ("sat", "BH DZ EG IL IQ JO KW LY OM QA SA SD SY YE"),
    ("sun", "001"),
];

/// The calendars that this engine implements.
pub const AVAILABLE_CALENDARS: [&'static str; 16] = [
    "buddhist",
    "chinese",
    "coptic",
    "dangi",
    "ethioaa",
    "ethiopic",
    "gregory",
    "hebrew",
    "indian",
    "islamic-civil",
    "islamic-tbla",
    "islamic-umalqura",
    "iso8601",
    "japanese",
    "persian",
    "roc",
];

/// The first row from `i` on whose left column holds `key` as a word.
pub open spec fn row_from(rows: Seq<(&'static str, &'static str)>, key: Seq<char>, i: int) -> Option<
    int,
>
    decreases rows.len() - i,
{
    if i < 0 || i >= rows.len() {
        None
    } else if words(rows[i].0@).contains(key) {
        Some(i)
    } else {
        row_from(rows, key, i + 1)
    }
}

/// The first row from `i` on whose right column holds `key` as a word.
pub open spec fn day_row_from(
    rows: Seq<(&'static str, &'static str)>,
    key: Seq<char>,
    i: int,
) -> Option<int>
    decreases rows.len() - i,
{
    if i < 0 || i >= rows.len() {
        None
    } else if words(rows[i].1@).contains(key) {
        Some(i)
    } else {
        day_row_from(rows, key, i + 1)
    }
}

fn contains_key(keys: &str, key: &str) -> (r: bool)
    ensures
        r == words(keys@).contains(key@),
{
    let list = split_words(keys);
    let want = crate::text::chars_of(key);
    let mut i: usize = 0;
    while i < list.len()
        invariant
            i <= list@.len(),
            list@.map_values(|w: Vec<char>| w@) == words(keys@),
            want@ == key@,
            forall|j: int| 0 <= j < i ==> words(keys@)[j] != key@,
        decreases list@.len() - i,
    {
        assert(words(keys@)[i as int] == list@[i as int]@);
        if crate::text::same_chars(&list[i], &want) {
            assert(words(keys@)[i as int] == key@);
            return true;
        }
        i += 1;
    }
    assert(!words(keys@).contains(key@)) by {
        if words(keys@).contains(key@) {
            let j = choose|j: int| 0 <= j < words(keys@).len() && words(keys@)[j] == key@;
            assert(words(keys@)[j] != key@);
        }
    }
    false
}

/// CLDR's name for the Gregorian calendar differs from the BCP 47 one.
pub open spec fn canonical_calendar(name: Seq<char>) -> Seq<char> {
    if name == "gregorian"@ {
        "gregory"@
    } else {
        name
    }
}

pub open spec fn calendar_available(name: Seq<char>) -> bool {
    exists|i: int| 0 <= i < 16 && #[trigger] AVAILABLE_CALENDARS@[i]@ == name
}

/// The canonical names of the listed calendars that are available, in the order of the list.
pub open spec fn available_calendars(names: Seq<Seq<char>>) -> Seq<Seq<char>>
    decreases names.len(),
{
    if names.len() == 0 {
        Seq::empty()
    } else {
        let front = available_calendars(names.drop_last());
        let last = canonical_calendar(names.last());
        if calendar_available(last) {
            front.push(last)
        } else {
            front
        }
    }
}

/// Calendar preference data explicitly available for a region, filtered to calendars implemented
/// by this engine. The caller performs ECMA-402's ordered region fallback before using `001`.
pub fn calendar_preferences(region: &str) -> (r: Option<Vec<&'static str>>)
    ensures
        match row_from(CALENDAR_PREFERENCES@, region@, 0) {
            None => r is None,
            Some(row) => {
                &&& r is Some
                &&& r->0@.map_values(|s: &'static str| s@) == available_calendars(
                    words(CALENDAR_PREFERENCES@[row].1@),
                )
            },
        },
{
    let mut i: usize = 0;
    while i < 15
        invariant
            i <= 15,
            row_from(CALENDAR_PREFERENCES@, region@, 0) == row_from(
                CALENDAR_PREFERENCES@,
                region@,
                i as int,
            ),
        decreases 15 - i,
    {
        if contains_key(CALENDAR_PREFERENCES[i].0, region) {
            return Some(known_calendars(CALENDAR_PREFERENCES[i].1));
        }
        i += 1;
    }
    None
}

fn known_calendars(list: &str) -> (r: Vec<&'static str>)
    ensures
        r@.map_values(|s: &'static str| s@) == available_calendars(words(list@)),
{
    let names = split_words(list);
    let ghost all = words(list@);
    let mut out: Vec<&'static str> = Vec::new();
    let mut i: usize = 0;
    assert(out@.map_values(|s: &'static str| s@) =~= available_calendars(all.take(0)));
    while i < names.len()
        invariant
            i <= names@.len(),
            names@.map_values(|w: Vec<char>| w@) == all,
            out@.map_values(|s: &'static str| s@) == available_calendars(all.take(i as int)),
        decreases names@.len() - i,
    {
        assert(all[i as int] == names@[i as int]@);
        assert(all.take(i + 1).drop_last() =~= all.take(i as int));
        assert(all.take(i + 1).last() == all[i as int]);
        let ghost before = out@;
        match find_calendar(&names[i]) {
            Some(name) => {
                out.push(name);
                assert(out@.map_values(|s: &'static str| s@) =~= before.map_values(
                    |s: &'static str| s@,
                ).push(name@));
            },
            None => {},
        }
        i += 1;
    }
    assert(all.take(i as int) =~= all);
    out
}

/// The available calendar that a CLDR name stands for.
fn find_calendar(name: &Vec<char>) -> (r: Option<&'static str>)
    ensures
        match r {
            Some(c) => c@ == canonical_calendar(name@) && calendar_available(c@),
            None => !calendar_available(canonical_calendar(name@)),
        },
{
    let gregorian = crate::text::chars_of("gregorian");
    let canonical = if crate::text::same_chars(name, &gregorian) {
        crate::text::chars_of("gregory")
    } else {
        name.clone()
    };
    assert(canonical@ =~= canonical_calendar(name@));
    let mut i: usize = 0;
    while i < 16
        invariant
            i <= 16,
            canonical@ == canonical_calendar(name@),
            forall|j: int| 0 <= j < i ==> #[trigger] AVAILABLE_CALENDARS@[j]@ != canonical@,
        decreases 16 - i,
    {
        let candidate = AVAILABLE_CALENDARS[i];
        let chars = crate::text::chars_of(candidate);
        assert(AVAILABLE_CALENDARS@[i as int] == candidate);
        if crate::text::same_chars(&chars, &canonical) {
            return Some(candidate);
        }
        i += 1;
    }
    None
}

/// The hour cycle that a CLDR time pattern selects by its leading letter.
pub open spec fn cycle_of(pattern: Seq<char>) -> Option<Seq<char>> {
    if pattern.len() == 0 {
        None
    } else if pattern[0] == 'h' {
        Some("h12"@)
    } else if pattern[0] == 'H' {
        Some("h23"@)
    } else if pattern[0] == 'K' {
        Some("h11"@)
    } else if pattern[0] == 'k' {
        Some("h24"@)
    } else {
        None
    }
}

/// The cycles of the patterns in order, each listed once.
pub open spec fn cycles_of(patterns: Seq<Seq<char>>) -> Seq<Seq<char>>
    decreases patterns.len(),
{
    if patterns.len() == 0 {
        Seq::empty()
    } else {
        let front = cycles_of(patterns.drop_last());
        match cycle_of(patterns.last()) {
            Some(c) => if front.contains(c) {
                front
            } else {
                front.push(c)
            },
            None => front,
        }
    }
}

/// Time preference data explicitly available for a language-region key or region. CLDR pattern
/// letters map to ECMA-402 hour-cycle identifiers; flexible day periods retain the cycle selected
/// by their leading `h`/`H` pattern letter.
pub fn hour_cycles(key: &str) -> (r: Option<Vec<&'static str>>)
    ensures
        match row_from(TIME_DATA@, key@, 0) {
            None => r is None,
            Some(row) => {
                &&& r is Some
                &&& r->0@.map_values(|s: &'static str| s@) == cycles_of(words(TIME_DATA@[row].1@))
            },
        },
{
    let mut i: usize = 0;
    while i < 25
        invariant
            i <= 25,
            row_from(TIME_DATA@, key@, 0) == row_from(TIME_DATA@, key@, i as int),
        decreases 25 - i,
    {
        if contains_key(TIME_DATA[i].0, key) {
            return Some(collect_cycles(TIME_DATA[i].1));
        }
        i += 1;
    }
    None
}

fn collect_cycles(allowed: &str) -> (r: Vec<&'static str>)
    ensures
        r@.map_values(|s: &'static str| s@) == cycles_of(words(allowed@)),
{
    let patterns = split_words(allowed);
    let ghost all = words(allowed@);
    let mut cycles: Vec<&'static str> = Vec::new();
    let mut i: usize = 0;
    assert(cycles@.map_values(|s: &'static str| s@) =~= cycles_of(all.take(0)));
    while i < patterns.len()
        invariant
            i <= patterns@.len(),
            patterns@.map_values(|w: Vec<char>| w@) == all,
            cycles@.map_values(|s: &'static str| s@) == cycles_of(all.take(i as int)),
        decreases patterns@.len() - i,
    {
        assert(all[i as int] == patterns@[i as int]@);
        assert(all.take(i + 1).drop_last() =~= all.take(i as int));
        assert(all.take(i + 1).last() == all[i as int]);
        let found: Option<&'static str> = if patterns[i].len() == 0 {
            None
        } else {
            match patterns[i][0] {
                'h' => Some("h12"),
                'H' => Some("h23"),
                'K' => Some("h11"),
                'k' => Some("h24"),
                _ => None,
            }
        };
        let ghost before = cycles@;
        match found {
            Some(cycle) => {
                if !holds_text(&cycles, cycle) {
                    cycles.push(cycle);
                    assert(cycles@.map_values(|s: &'static str| s@) =~= before.map_values(
                        |s: &'static str| s@,
                    ).push(cycle@));
                }
            },
            None => {},
        }
        i += 1;
    }
    assert(all.take(i as int) =~= all);
    cycles
}

fn holds_text(list: &Vec<&'static str>, text: &str) -> (r: bool)
    ensures
        r == list@.map_values(|s: &'static str| s@).contains(text@),
{
    let ghost all = list@.map_values(|s: &'static str| s@);
    let mut i: usize = 0;
    while i < list.len()
        invariant
            i <= list@.len(),
            all == list@.map_values(|s: &'static str| s@),
            forall|j: int| 0 <= j < i ==> #[trigger] all[j] != text@,
        decreases list@.len() - i,
    {
        assert(all[i as int] == list@[i as int]@);
        if same_text(list[i], text) {
            return true;
        }
        i += 1;
    }
    false
}

/// The ISO number of a weekday, Monday being 1.
pub open spec fn weekday_number(day: Seq<char>) -> int {
    if day == "mon"@ {
        1
    } else if day == "tue"@ {
        2
    } else if day == "wed"@ {
        3
    } else if day == "thu"@ {
        4
    } else if day == "fri"@ {
        5
    } else if day == "sat"@ {
        6
    } else {
        7
    }
}

pub open spec fn is_weekday(day: Seq<char>) -> bool {
    day == "mon"@ || day == "tue"@ || day == "wed"@ || day == "thu"@ || day == "fri"@ || day
        == "sat"@ || day == "sun"@
}

fn weekday(day: &str) -> (r: u8)
    requires
        is_weekday(day@),
    ensures
        r == weekday_number(day@),
        1 <= r <= 7,
{
    if same_text(day, "mon") {
        1
    } else if same_text(day, "tue") {
        2
    } else if same_text(day, "wed") {
        3
    } else if same_text(day, "thu") {
        4
    } else if same_text(day, "fri") {
        5
    } else if same_text(day, "sat") {
        6
    } else {
        7
    }
}

/// The weekday that a table names for a region, or the default.
pub open spec fn day_for(
    rows: Seq<(&'static str, &'static str)>,
    region: Seq<char>,
    default: int,
) -> int {
    match day_row_from(rows, region, 0) {
        Some(i) => weekday_number(rows[i].0@),
        None => default,
    }
}

fn region_day(data: &[(&'static str, &'static str)], region: &str, default: u8) -> (r: u8)
    requires
        forall|i: int| 0 <= i < data@.len() ==> is_weekday((#[trigger] data@[i]).0@),
        1 <= default <= 7,
    ensures
        r == day_for(data@, region@, default as int),
        1 <= r <= 7,
{
    let mut i: usize = 0;
    while i < data.len()
        invariant
            i <= data@.len(),
            forall|i: int| 0 <= i < data@.len() ==> is_weekday((#[trigger] data@[i]).0@),
            day_row_from(data@, region@, 0) == day_row_from(data@, region@, i as int),
        decreases data@.len() - i,
    {
        if contains_key(data[i].1, region) {
            return weekday(data[i].0);
        }
        i += 1;
    }
    default
}

/// Whether `day` lies in the weekend that runs from `start` to `end`, over the end of the week
/// where it has to.
pub open spec fn in_weekend(start: int, end: int, day: int) -> bool {
    if start <= end {
        start <= day <= end
    } else {
        day >= start || day <= end
    }
}

/// The days up to `last` that lie in the weekend, in ascending order.
pub open spec fn weekend_upto(start: int, end: int, last: int) -> Seq<int>
    decreases last,
{
    if last <= 0 {
        Seq::empty()
    } else {
        let front = weekend_upto(start, end, last - 1);
        if in_weekend(start, end, last) {
            front.push(last)
        } else {
            front
        }
    }
}

/// The first day of the week in a region, and the days of its weekend.
pub open spec fn week_of(region: Seq<char>) -> (int, Seq<int>) {
    (
        day_for(FIRST_DAY_DATA@, region, 1),
        weekend_upto(
            day_for(WEEKEND_START_DATA@, region, 6),
            day_for(WEEKEND_END_DATA@, region, 7),
            7,
        ),
    )
}

/// The CLDR week-information record for a region, with inherited `001` values applied. Weekend
/// days are returned in the ascending ISO weekday order required by ECMA-402.
pub fn week_info(region: &str) -> (r: (u8, Vec<u8>))
    ensures
        r.0 == week_of(region@).0,
        r.1@.map_values(|d: u8| d as int) == week_of(region@).1,
{
    let first_day: u8 = region_day(FIRST_DAY_DATA.as_slice(), region, 1);
    let weekend_start: u8 = region_day(WEEKEND_START_DATA.as_slice(), region, 6);
    let weekend_end: u8 = region_day(WEEKEND_END_DATA.as_slice(), region, 7);
    let mut weekend: Vec<u8> = Vec::new();
    let mut day: u8 = 1;
    assert(weekend@.map_values(|d: u8| d as int) =~= weekend_upto(
        weekend_start as int,
        weekend_end as int,
        0,
    ));
    while day <= 7
        invariant
            1 <= day <= 8,
            weekend@.map_values(|d: u8| d as int) == weekend_upto(
                weekend_start as int,
                weekend_end as int,
                day - 1,
            ),
        decreases 8 - day,
    {
        let inside = if weekend_start <= weekend_end {
            weekend_start <= day && day <= weekend_end
        } else {
            day >= weekend_start || day <= weekend_end
        };
        let ghost before = weekend@;
        if inside {
            weekend.push(day);
            assert(weekend@.map_values(|d: u8| d as int) =~= before.map_values(
                |d: u8| d as int,
            ).push(day as int));
        }
        day += 1;
    }
    (first_day, weekend)
}

/// A weekend is listed in ascending order and holds exactly the days between its two ends.
pub proof fn law_weekend_ascending(start: int, end: int, last: int)
    requires
        last >= 0,
    ensures
        forall|i: int, j: int|
            0 <= i < j < weekend_upto(start, end, last).len() ==> weekend_upto(start, end, last)[i]
                < weekend_upto(start, end, last)[j],
        forall|d: int|
            #![trigger weekend_upto(start, end, last).contains(d)]
            weekend_upto(start, end, last).contains(d) <==> 1 <= d <= last && in_weekend(
                start,
                end,
                d,
            ),
    decreases last,
{
    if last > 0 {
        law_weekend_ascending(start, end, last - 1);
        let front = weekend_upto(start, end, last - 1);
        let all = weekend_upto(start, end, last);
        assert forall|i: int| 0 <= i < front.len() implies front[i] < last by {
            assert(front.contains(front[i]));
        }
        assert forall|d: int| #![trigger all.contains(d)] all.contains(d) <==> 1 <= d <= last && in_weekend(start, end, d) by {
            if all.contains(d) {
                let i = choose|i: int| 0 <= i < all.len() && all[i] == d;
                if i < front.len() {
                    assert(front.contains(d));
                }
            }
            if 1 <= d <= last && in_weekend(start, end, d) {
                if d == last {
                    assert(all[front.len() as int] == d);
                } else {
                    assert(front.contains(d));
                    let i = choose|i: int| 0 <= i < front.len() && front[i] == d;
                    assert(all[i] == d);
                }
            }
        }
    }
}

/// No hour cycle is listed twice.
pub proof fn law_cycles_distinct(patterns: Seq<Seq<char>>)
    ensures
        cycles_of(patterns).no_duplicates(),
    decreases patterns.len(),
{
    if patterns.len() > 0 {
        law_cycles_distinct(patterns.drop_last());
    }
}

/// A region that a table names.
pub open spec fn named_in(rows: Seq<(&'static str, &'static str)>, region: Seq<char>) -> bool {
    day_row_from(rows, region, 0) is Some
}

spec fn lacks(s: Seq<char>, c: char, j: int) -> bool
    decreases s.len() - j,
{
    j < 0 || j >= s.len() || (s[j] != c && lacks(s, c, j + 1))
}

proof fn lemma_lacks(s: Seq<char>, c: char, j: int)
    requires
        0 <= j,
        lacks(s, c, j),
    ensures
        forall|k: int| j <= k < s.len() ==> #[trigger] s[k] != c,
    decreases s.len() - j,
{
    if j < s.len() {
        lemma_lacks(s, c, j + 1);
        assert forall|k: int| j <= k < s.len() implies #[trigger] s[k] != c by {
            if k > j {
                assert(s[k] != c);
            }
        }
    }
}

/// A text without a zero does not name the world.
proof fn lemma_world_not_in(s: Seq<char>)
    requires
        lacks(s, '0', 0),
    ensures
        !words(s).contains("001"@),
{
    reveal_strlit("001");
    lemma_lacks(s, '0', 0);
    if words(s).contains("001"@) {
        assert("001"@[0] == '0');
        crate::text::lemma_word_characters(s, "001"@, '0');
        let k = choose|k: int| 0 <= k < s.len() && s[k] == '0';
        assert(s[k] != '0');
    }
}

/// A text that begins with the word, or is it, names the world.
proof fn lemma_world_first(s: Seq<char>)
    requires
        s.len() >= 3,
        s[0] == '0',
        s[1] == '0',
        s[2] == '1',
        s.len() == 3 || s[3] == ' ',
    ensures
        words(s).contains("001"@),
{
    reveal_strlit("001");
    crate::text::lemma_word_len(s, 3);
    assert(s.take(3) =~= "001"@);
    assert(words(s)[0] == "001"@);
}

proof fn lemma_world()
    ensures
        day_row_from(FIRST_DAY_DATA@, "001"@, 0) == Some(0int),
        day_row_from(WEEKEND_START_DATA@, "001"@, 0) == Some(2int),
        day_row_from(WEEKEND_END_DATA@, "001"@, 0) == Some(2int),
{
    reveal_with_fuel(lacks, 60);
    reveal_with_fuel(day_row_from, 5);
    reveal_strlit("AF");
    reveal_strlit("AF IR");
    reveal_strlit("001");
    reveal_strlit("BH DZ EG IL IQ IR JO KW LY OM QA SA SD SY YE");
    reveal_strlit("BH DZ EG IL IQ JO KW LY OM QA SA SD SY YE");
    lemma_world_not_in("AF"@);
    lemma_world_not_in("AF IR"@);
    lemma_world_not_in("BH DZ EG IL IQ IR JO KW LY OM QA SA SD SY YE"@);
    lemma_world_not_in("BH DZ EG IL IQ JO KW LY OM QA SA SD SY YE"@);
    lemma_world_first("001"@);
    reveal_strlit("001 AD AE AI AL AM AN AR AT AU AX AZ BA BE BG BM BN BY CH CL CM CN CR CY CZ DE DK EC EE ES FI FJ FO FR GB GE GF GP GR HR HU IE IT KG KZ LB LI LK LT LU LV MC MD ME MK MN MQ MY NL NO NZ PL RE RO RS RU SE SI SK SM TJ TM TR UA UY UZ VA VN XK");
    lemma_world_first("001 AD AE AI AL AM AN AR AT AU AX AZ BA BE BG BM BN BY CH CL CM CN CR CY CZ DE DK EC EE ES FI FJ FO FR GB GE GF GP GR HR HU IE IT KG KZ LB LI LK LT LU LV MC MD ME MK MN MQ MY NL NO NZ PL RE RO RS RU SE SI SK SM TJ TM TR UA UY UZ VA VN XK"@);
}

/// A week begins on a day between Monday and Sunday, its weekend has at least one day and lists
/// such days in ascending order, and a region that no table names is answered as the world is.
pub proof fn law_weeks_are_sound(region: Seq<char>)
    ensures
        1 <= week_of(region).0 <= 7,
        week_of(region).1.len() > 0,
        forall|i: int|
            0 <= i < week_of(region).1.len() ==> 1 <= #[trigger] week_of(region).1[i] <= 7,
        forall|i: int, j: int|
            0 <= i < j < week_of(region).1.len() ==> week_of(region).1[i] < week_of(region).1[j],
        !named_in(FIRST_DAY_DATA@, region) && !named_in(WEEKEND_START_DATA@, region) && !named_in(
            WEEKEND_END_DATA@,
            region,
        ) ==> week_of(region) == week_of("001"@),
{
    let start = day_for(WEEKEND_START_DATA@, region, 6);
    let end = day_for(WEEKEND_END_DATA@, region, 7);
    let days = weekend_upto(start, end, 7);
    law_weekend_ascending(start, end, 7);
    assert(days.contains(start));
    assert forall|i: int| 0 <= i < days.len() implies 1 <= #[trigger] days[i] <= 7 by {
        assert(days.contains(days[i]));
    }
    lemma_world();
    reveal_strlit("mon");
    reveal_strlit("tue");
    reveal_strlit("wed");
    reveal_strlit("thu");
    reveal_strlit("fri");
    reveal_strlit("sat");
    reveal_strlit("sun");
    assert("sat"@[0] == 's' && "sat"@[1] == 'a');
    assert("sun"@[1] == 'u');
    assert("mon"@[0] == 'm');
    assert("tue"@[0] == 't' && "tue"@[1] == 'u');
    assert("thu"@[1] == 'h');
    assert("wed"@[0] == 'w');
    assert("fri"@[0] == 'f');
}

} // verus!
