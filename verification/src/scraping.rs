use vstd::prelude::*;
use vstd::string::*;

use crate::text::texts;

verus! {

/// Represents the different errors that can happen when making requests to an API.
#[derive(Debug)]
pub enum APIError {
    ClientError(u16, String),
    Connection(String),
    Decode,
    Timeout,
    Unknown(String),
}

/// What an error says, with each text by its characters.
pub enum Fault {
    ClientError(u16, Seq<char>),
    Connection(Seq<char>),
    Decode,
    Timeout,
    Unknown(Seq<char>),
}

impl View for APIError {
    type V = Fault;

    open spec fn view(&self) -> Fault {
        match self {
            APIError::ClientError(code, reason) => Fault::ClientError(*code, reason@),
            APIError::Connection(url) => Fault::Connection(url@),
            APIError::Decode => Fault::Decode,
            APIError::Timeout => Fault::Timeout,
            APIError::Unknown(message) => Fault::Unknown(message@),
        }
    }
}

impl APIError {
    /// The error for a request that was not answered. Only a timeout and a
    /// failure to connect are told apart; of a failure to connect the
    /// address has to be known.
    pub fn from_request(
        is_timeout: bool,
        is_connect: bool,
        url: Option<String>,
        message: String,
    ) -> (error: APIError)
        requires
            !is_timeout && is_connect ==> url is Some,
        ensures
            error@ == if is_timeout {
                Fault::Timeout
            } else if is_connect {
                Fault::Connection(url->0@)
            } else {
                Fault::Unknown(message@)
            },
    {
        // Currently only anticipating errors from timeout or connections to a bad root.
        if is_timeout {
            APIError::Timeout
        } else if is_connect {
            match url {
                Some(url) => APIError::Connection(url),
                None => unreached(),
            }
        } else {
            APIError::Unknown(message)
        }
    }

    /// The error for an answer with the status `code`, if it is one: only a
    /// client error is, and its reason has to be known.
    pub fn from_status(code: u16, is_client_error: bool, reason: Option<String>) -> (error: Option<
        APIError,
    >)
        requires
            is_client_error ==> reason is Some,
        ensures
            match error {
                Some(error) => is_client_error && error@ == Fault::ClientError(code, reason->0@),
                None => !is_client_error,
            },
    {
        // Not yet anticipating a server error.
        if is_client_error {
            match reason {
                Some(reason) => Some(APIError::ClientError(code, reason)),
                None => unreached(),
            }
        } else {
            None
        }
    }

    /// The error for an answer that could not be read.
    pub fn from_body(is_decode: bool, message: String) -> (error: APIError)
        ensures
            error@ == if is_decode {
                Fault::Decode
            } else {
                Fault::Unknown(message@)
            },
    {
        // Only expecting errors from decoding into json.
        if is_decode {
            APIError::Decode
        } else {
            APIError::Unknown(message)
        }
    }
}

/// A game as an archive holds it: its PGN, and the time at which it ended,
/// in seconds since the start of 1970.
#[derive(Debug)]
pub struct ArchivedGame {
    pub pgn: String,
    pub end_time: i64,
}

/// A point in time: whole seconds since the start of 1970, and the
/// nanoseconds that have passed since the last whole second.
#[derive(Debug, Clone, Copy, PartialEq, Eq, Structural)]
pub struct Instant {
    pub seconds: i64,
    pub nanoseconds: u32,
}

/// A month of a year.
#[derive(Debug, Clone, Copy, PartialEq, Eq, Structural)]
pub struct Month {
    pub year: i32,
    pub month: u32,
}

/// Which games of the archive of a month are wanted.
#[derive(Debug, Clone, Copy, PartialEq, Eq, Structural)]
pub enum Part {
    /// Those that ended at the time or later.
    Since(Instant),
    /// All of them.
    Whole,
    /// Those that ended before the time.
    Before(Instant),
}

/// The archive of a month that is to be asked for, and the part of it that
/// is wanted.
#[derive(Debug, Clone, Copy, PartialEq, Eq, Structural)]
pub struct Fetch {
    pub month: Month,
    pub part: Part,
}

/// The texts of `texts` in order, with `separator` between each two of them.
pub open spec fn joined(texts: Seq<Seq<char>>, separator: Seq<char>) -> Seq<char>
    decreases texts.len(),
{
    if texts.len() == 0 {
        Seq::empty()
    } else if texts.len() == 1 {
        texts[0]
    } else {
        joined(texts.drop_last(), separator) + separator + texts.last()
    }
}

/// What stands between two games in a text of several.
pub open spec fn separator() -> Seq<char> {
    "\n\n"@
}

/// Whether a game that ended at `end_time` ended at `time` or later.
pub open spec fn ended_since(end_time: i64, time: Instant) -> bool {
    end_time > time.seconds || (end_time == time.seconds && time.nanoseconds == 0)
}

/// The PGN of each game.
pub open spec fn pgns(games: Seq<ArchivedGame>) -> Seq<Seq<char>> {
    games.map_values(|game: ArchivedGame| game.pgn@)
}

/// The PGN of each game that ended at `time` or later.
pub open spec fn pgns_since(games: Seq<ArchivedGame>, time: Instant) -> Seq<Seq<char>> {
    games.filter_map(
        |game: ArchivedGame|
            if ended_since(game.end_time, time) {
                Some(game.pgn@)
            } else {
                None
            },
    )
}

/// The PGN of each game that ended before `time`.
pub open spec fn pgns_before(games: Seq<ArchivedGame>, time: Instant) -> Seq<Seq<char>> {
    games.filter_map(
        |game: ArchivedGame|
            if !ended_since(game.end_time, time) {
                Some(game.pgn@)
            } else {
                None
            },
    )
}

/// Writes `parts` one after the other, with a blank line between each two.
pub fn join(parts: &Vec<String>) -> (text: String)
    ensures
        text@ == joined(texts(parts@), separator()),
{
    let ghost all = texts(parts@);
    let mut text = String::new();
    let mut i: usize = 0;
    while i < parts.len()
        invariant
            i <= parts.len(),
            all == texts(parts@),
            text@ == joined(all.take(i as int), separator()),
        decreases parts.len() - i,
    {
        proof {
            assert(all.take(i + 1).drop_last() =~= all.take(i as int));
        }
        if i > 0 {
            text.append("\n\n");
        }
        text.append(parts[i].as_str());
        i += 1;
    }
    assert(all.take(parts.len() as int) =~= all);
    text
}

/// The PGN of all of `games`, with a blank line between each two.
pub fn concat_pgns(games: Vec<ArchivedGame>) -> (text: String)
    ensures
        text@ == joined(pgns(games@), separator()),
{
    let mut game_pgns: Vec<String> = Vec::new();
    let ghost all = games@;
    let mut i: usize = 0;
    while i < games.len()
        invariant
            i <= games.len(),
            games@ == all,
            texts(game_pgns@) == pgns(all.take(i as int)),
        decreases games.len() - i,
    {
        game_pgns.push(games[i].pgn.clone());
        proof {
            assert(pgns(all.take(i + 1)) =~= pgns(all.take(i as int)).push(all[i as int].pgn@));
        }
        i += 1;
    }
    assert(all.take(all.len() as int) =~= all);
    join(&game_pgns)
}

/// The PGN of those of `games` that ended at `begin_time` or later, with a
/// blank line between each two.
pub fn concat_pgns_since(games: Vec<ArchivedGame>, begin_time: Instant) -> (text: String)
    ensures
        text@ == joined(pgns_since(games@, begin_time), separator()),
{
    let mut game_pgns: Vec<String> = Vec::new();
    let ghost all = games@;
    let mut i: usize = 0;
    while i < games.len()
        invariant
            i <= games.len(),
            games@ == all,
            texts(game_pgns@) == pgns_since(all.take(i as int), begin_time),
        decreases games.len() - i,
    {
        proof {
            assert(all.take(i + 1).drop_last() =~= all.take(i as int));
        }
        // We want all games that ended at or after begin_time.
        if games[i].end_time > begin_time.seconds || (games[i].end_time == begin_time.seconds
            && begin_time.nanoseconds == 0) {
            game_pgns.push(games[i].pgn.clone());
        }
        i += 1;
    }
    assert(all.take(all.len() as int) =~= all);
    join(&game_pgns)
}

/// The PGN of those of `games` that ended before `end_time`, with a blank
/// line between each two.
pub fn concat_pgns_before(games: Vec<ArchivedGame>, end_time: Instant) -> (text: String)
    ensures
        text@ == joined(pgns_before(games@, end_time), separator()),
{
    let mut game_pgns: Vec<String> = Vec::new();
    let ghost all = games@;
    let mut i: usize = 0;
    while i < games.len()
        invariant
            i <= games.len(),
            games@ == all,
            texts(game_pgns@) == pgns_before(all.take(i as int), end_time),
        decreases games.len() - i,
    {
        proof {
            assert(all.take(i + 1).drop_last() =~= all.take(i as int));
        }
        // We want all games that ended before but not at end_time.
        if !(games[i].end_time > end_time.seconds || (games[i].end_time == end_time.seconds
            && end_time.nanoseconds == 0)) {
            game_pgns.push(games[i].pgn.clone());
        }
        i += 1;
    }
    assert(all.take(all.len() as int) =~= all);
    join(&game_pgns)
}

/// The year in which `chrono` finds the time that is `seconds` and
/// `nanoseconds` after the start of 1970, or `None` where it has no such
/// time.
pub uninterp spec fn calendar_year(seconds: i64, nanoseconds: u32) -> Option<i32>;

/// The month of the year in which `chrono` finds the time that is `seconds`
/// and `nanoseconds` after the start of 1970, or `None` where it has no such
/// time.
pub uninterp spec fn calendar_month(seconds: i64, nanoseconds: u32) -> Option<u32>;

/// The seconds from the start of 1970 to a day and time of the day as
/// `chrono` counts them without regard to any time zone, or `None` where it
/// has no such day or no such time of the day.
pub uninterp spec fn utc_seconds(
    year: i32,
    month: u32,
    day: u32,
    hour: u32,
    minute: u32,
    second: u32,
) -> Option<i64>;

/// When a month starts: at the start of its first day.
pub open spec fn month_start(year: i32, month: u32) -> Option<i64> {
    utc_seconds(year, month, 1, 0, 0, 0)
}

/// Calls `chrono::Datelike::year` on the time that
/// `chrono::DateTime::from_timestamp` makes of `time`, if it makes one: it
/// makes none of a time that the crate cannot hold. What comes out depends
/// on the arguments alone, and is named `calendar_year`.
#[verifier::external_body]
fn year_of(time: Instant) -> (year: Option<i32>)
    ensures
        year == calendar_year(time.seconds, time.nanoseconds),
{
    match chrono::DateTime::from_timestamp(time.seconds, time.nanoseconds) {
        Some(time) => Some(chrono::Datelike::year(&time)),
        None => None,
    }
}

/// Calls `chrono::Datelike::month` on the time that
/// `chrono::DateTime::from_timestamp` makes of `time`, if it makes one. The
/// months are counted from 1 to 12. What comes out depends on the arguments
/// alone, and is named `calendar_month`.
#[verifier::external_body]
fn month_of(time: Instant) -> (month: Option<u32>)
    ensures
        month == calendar_month(time.seconds, time.nanoseconds),
        month matches Some(month) ==> 1 <= month <= 12,
{
    match chrono::DateTime::from_timestamp(time.seconds, time.nanoseconds) {
        Some(time) => Some(chrono::Datelike::month(&time)),
        None => None,
    }
}

/// Calls `chrono::TimeZone::with_ymd_and_hms` on `chrono::Utc`, and hands
/// out the time that it makes as seconds since the start of 1970. It makes
/// no time of a day or a time of the day that is none, or that the crate
/// cannot hold. What comes out depends on the arguments alone, and is named
/// `utc_seconds`.
#[verifier::external_body]
fn seconds_at(year: i32, month: u32, day: u32, hour: u32, minute: u32, second: u32) -> (seconds:
    Option<i64>)
    ensures
        seconds == utc_seconds(year, month, day, hour, minute, second),
{
    let utc = chrono::Utc;
    let time = chrono::TimeZone::with_ymd_and_hms(&utc, year, month, day, hour, minute, second);
    match time.single() {
        Some(time) => Some(time.timestamp()),
        None => None,
    }
}

/// When `month` starts, in seconds since the start of 1970: the earliest
/// time within the month, the start of its first day.
fn start_of(month: Month) -> (seconds: Option<i64>)
    ensures
        seconds == month_start(month.year, month.month),
{
    seconds_at(month.year, month.month, 1, 0, 0, 0)
}

/// The place of a month among all months.
pub open spec fn month_index(year: int, month: int) -> int {
    12 * year + month
}

/// The month at a place among all months.
pub open spec fn month_at(index: int) -> Month {
    Month { year: ((index - 1) / 12) as i32, month: ((index - 1) % 12 + 1) as u32 }
}

/// The months from the one at `from` to the one before `until`, each to be
/// asked for whole.
pub open spec fn whole_months(from: int, until: int) -> Seq<Fetch>
    decreases until - from,
{
    if from >= until {
        Seq::empty()
    } else {
        seq![Fetch { month: month_at(from), part: Part::Whole }] + whole_months(from + 1, until)
    }
}

/// What is asked for last: the games of the last month that ended before
/// `until`, unless `until` is the very start of that month.
pub open spec fn last_fetch(until: Instant, until_month: Month, until_start: i64) -> Seq<Fetch> {
    if until_start < until.seconds || (until_start == until.seconds && until.nanoseconds > 0) {
        seq![Fetch { month: until_month, part: Part::Before(until) }]
    } else {
        Seq::empty()
    }
}

/// All that is asked for to get the games from `from` until `until`: the
/// games of the first month that ended at `from` or later, then each month
/// after the first and before the last as a whole, then the games of
/// the last month that ended before `until`. Where both times are in one
/// month, that month is asked for twice.
pub open spec fn fetches(
    from: Instant,
    from_month: Month,
    until: Instant,
    until_month: Month,
    until_start: i64,
) -> Seq<Fetch> {
    seq![Fetch { month: from_month, part: Part::Since(from) }] + whole_months(
        month_index(from_month.year as int, from_month.month as int) + 1,
        month_index(until_month.year as int, until_month.month as int),
    ) + last_fetch(until, until_month, until_start)
}

/// The way through the archives of the months from one time to another.
pub struct Walk {
    from: Instant,
    from_month: Month,
    until: Instant,
    until_month: Month,
    until_start: i64,
    /// Whether the first month is still to be asked for.
    at_first: bool,
    /// The month that comes next, once the first was asked for.
    current: Month,
    /// Whether nothing is left to ask for.
    done: bool,
}

impl View for Walk {
    type V = Seq<Fetch>;

    /// What is still to be asked for, in order.
    closed spec fn view(&self) -> Seq<Fetch> {
        if self.done {
            Seq::empty()
        } else if self.at_first {
            fetches(self.from, self.from_month, self.until, self.until_month, self.until_start)
        } else {
            whole_months(
                month_index(self.current.year as int, self.current.month as int),
                month_index(self.until_month.year as int, self.until_month.month as int),
            ) + last_fetch(self.until, self.until_month, self.until_start)
        }
    }
}

impl Walk {
    /// What every walk that `new` or `between` makes holds, and keeps: its
    /// months are months of the year.
    pub closed spec fn wf(&self) -> bool {
        &&& 1 <= self.from_month.month <= 12
        &&& 1 <= self.until_month.month <= 12
        &&& 1 <= self.current.month <= 12
    }

    /// Whether the calendar reaches `time`, so that it has a year and a
    /// month.
    pub open spec fn reaches(time: Instant) -> bool {
        calendar_year(time.seconds, time.nanoseconds) is Some && calendar_month(
            time.seconds,
            time.nanoseconds,
        ) is Some
    }

    /// The month in which the calendar has `time`.
    pub open spec fn month_of(time: Instant) -> Month {
        Month {
            year: calendar_year(time.seconds, time.nanoseconds)->0,
            month: calendar_month(time.seconds, time.nanoseconds)->0,
        }
    }

    /// When the month of `time` starts in the calendar, if the calendar
    /// reaches that.
    pub open spec fn month_start_of(time: Instant) -> Option<i64> {
        month_start(Self::month_of(time).year, Self::month_of(time).month)
    }

    /// The way from `from` until `until`, or `None` where the calendar does
    /// not reach one of the two, or the start of the month of `until`.
    pub fn new(from: Instant, until: Instant) -> (walk: Option<Walk>)
        ensures
            walk is Some <==> Self::reaches(from) && Self::reaches(until) && Self::month_start_of(
                until,
            ) is Some,
            walk matches Some(walk) ==> walk.wf() && walk@ == fetches(
                from,
                Self::month_of(from),
                until,
                Self::month_of(until),
                Self::month_start_of(until)->0,
            ),
    {
        let from_month = match (year_of(from), month_of(from)) {
            (Some(year), Some(month)) => Month { year: year, month: month },
            _ => {
                return None;
            },
        };
        let until_month = match (year_of(until), month_of(until)) {
            (Some(year), Some(month)) => Month { year: year, month: month },
            _ => {
                return None;
            },
        };
        let until_start = match start_of(until_month) {
            Some(seconds) => seconds,
            None => {
                return None;
            },
        };
        Some(Walk::between(from, from_month, until, until_month, until_start))
    }

    /// The way from `from`, a time in `from_month`, until `until`, a time in
    /// `until_month`, the month that starts `until_start` seconds after the
    /// start of 1970.
    pub fn between(
        from: Instant,
        from_month: Month,
        until: Instant,
        until_month: Month,
        until_start: i64,
    ) -> (walk: Walk)
        requires
            1 <= from_month.month <= 12,
            1 <= until_month.month <= 12,
        ensures
            walk.wf(),
            walk@ == fetches(from, from_month, until, until_month, until_start),
    {
        Walk {
            from: from,
            from_month: from_month,
            until: until,
            until_month: until_month,
            until_start: until_start,
            at_first: true,
            current: from_month,
            done: false,
        }
    }

    /// What is to be asked for next, or `None` when nothing is left.
    pub fn next(&mut self) -> (fetch: Option<Fetch>)
        requires
            old(self).wf(),
        ensures
            final(self).wf(),
            match fetch {
                Some(fetch) => old(self)@.len() > 0 && fetch == old(self)@[0] && final(self)@
                    == old(self)@.drop_first(),
                None => old(self)@.len() == 0 && final(self)@.len() == 0,
            },
    {
        if self.done {
            return None;
        }
        let last = month_index_of(self.until_month);
        if self.at_first {
            self.at_first = false;
            let first = month_index_of(self.from_month);
            if first + 1 < last {
                self.current = month_after(self.from_month);
            } else {
                // No whole month lies between the two.
                self.current = self.until_month;
            }
            let fetch = Fetch { month: self.from_month, part: Part::Since(self.from) };
            return Some(fetch);
        }
        let current = month_index_of(self.current);
        if current < last {
            let fetch = Fetch { month: self.current, part: Part::Whole };
            self.current = month_after(self.current);
            return Some(fetch);
        }
        self.done = true;
        if self.until_start < self.until.seconds || (self.until_start == self.until.seconds
            && self.until.nanoseconds > 0) {
            Some(Fetch { month: self.until_month, part: Part::Before(self.until) })
        } else {
            None
        }
    }
}

/// The place of `month` among all months.
fn month_index_of(month: Month) -> (index: i64)
    requires
        1 <= month.month <= 12,
    ensures
        index == month_index(month.year as int, month.month as int),
{
    12 * (month.year as i64) + (month.month as i64)
}

/// The month after `month`.
fn month_after(month: Month) -> (next: Month)
    requires
        1 <= month.month <= 12,
        month.month == 12 ==> month.year < i32::MAX,
    ensures
        1 <= next.month <= 12,
        month_index(next.year as int, next.month as int) == month_index(
            month.year as int,
            month.month as int,
        ) + 1,
        next == month_at(month_index(month.year as int, month.month as int) + 1),
{
    if month.month == 12 {
        Month { year: month.year + 1, month: 1 }
    } else {
        Month { year: month.year, month: month.month + 1 }
    }
}

} // verus!
