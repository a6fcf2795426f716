//! Candles as the broker's feed hands them out, and the account that they are pulled with.
use vstd::prelude::*;
use vstd::string::*;
use crate::binary64::Float;
use crate::market::BidAskCandle;
use crate::text::{lower_ascii, lowered, same_text};
use crate::time::Instant;

verus! {

/// A candle of the feed. The timestamp is a local time and its offset from UTC.
#[derive(Clone, Copy, Debug, PartialEq, Eq)]
pub struct BidAskCandleData {
    pub open: Float,
    pub high: Float,
    pub low: Float,
    pub close: Float,
    pub volume: Float,
    /// Nanoseconds from the start of 1970 to the local wall-clock time.
    pub local_nanos: i128,
    /// Seconds that the local clock is ahead of UTC.
    pub offset_seconds: i32,
    pub bid_open: Float,
    pub bid_high: Float,
    pub bid_low: Float,
    pub bid_close: Float,
    pub ask_open: Float,
    pub ask_high: Float,
    pub ask_low: Float,
    pub ask_close: Float,
}

impl BidAskCandleData {
    /// The instant in UTC.
    pub open spec fn utc_nanos(self) -> int {
        self.local_nanos - self.offset_seconds * crate::time::NANOS_PER_SECOND
    }
}

/// The candle with its time in UTC and without its volume.
pub fn to_engine_candle(cd: &BidAskCandleData) -> (c: BidAskCandle)
    requires
        i128::MIN <= cd.utc_nanos() <= i128::MAX,
    ensures
        c.time.nanos == cd.utc_nanos(),
        c.o == cd.open && c.h == cd.high && c.l == cd.low && c.c == cd.close,
        c.bid_o == cd.bid_open && c.bid_h == cd.bid_high && c.bid_l == cd.bid_low && c.bid_c
            == cd.bid_close,
        c.ask_o == cd.ask_open && c.ask_h == cd.ask_high && c.ask_l == cd.ask_low && c.ask_c
            == cd.ask_close,
{
    BidAskCandle {
        time: Instant {
            nanos: cd.local_nanos - cd.offset_seconds as i128 * crate::time::NANOS_PER_SECOND,
        },
        o: cd.open,
        h: cd.high,
        l: cd.low,
        c: cd.close,
        bid_o: cd.bid_open,
        bid_h: cd.bid_high,
        bid_l: cd.bid_low,
        bid_c: cd.bid_close,
        ask_o: cd.ask_open,
        ask_h: cd.ask_high,
        ask_l: cd.ask_low,
        ask_c: cd.ask_close,
    }
}

/// The account that TradeNation candles are pulled with.
#[derive(Debug, PartialEq, Eq)]
pub enum TradeNationAccount {
    /// A demo session, without credentials.
    Demo,
    Live { user: String, password: String },
}

/// Why there is no such account.
#[derive(Debug, PartialEq, Eq)]
pub enum AccountError {
    UserMissing,
    PasswordMissing,
    /// The account type, in lower case.
    NotUnderstood(String),
}

/// The account for the configured type, in any case, `demo` where none is configured. A live one
/// needs a user and a password, and the user is asked for first.
pub fn tradenation_account(
    kind: Option<&str>,
    user: Option<String>,
    password: Option<String>,
) -> (account: Result<TradeNationAccount, AccountError>)
    ensures
        ({
            let wanted = match kind {
                Some(k) => lower_ascii(k@),
                None => "demo"@,
            };
            match account {
                Ok(TradeNationAccount::Demo) => wanted == "demo"@ && wanted != "live"@,
                Ok(TradeNationAccount::Live { user: u, password: p }) => wanted == "live"@ && user
                    == Some(u) && password == Some(p),
                Err(AccountError::UserMissing) => wanted == "live"@ && user is None,
                Err(AccountError::PasswordMissing) => wanted == "live"@ && user is Some
                    && password is None,
                Err(AccountError::NotUnderstood(other)) => wanted != "live"@ && wanted != "demo"@
                    && other@ == wanted,
            }
        }),
{
    let wanted: String = match kind {
        Some(k) => lowered(k),
        None => "demo".to_owned(),
    };
    if same_text(wanted.as_str(), "live") {
        let user: String = match user {
            Some(u) => u,
            None => {
                return Err(AccountError::UserMissing);
            },
        };
        match password {
            Some(password) => Ok(TradeNationAccount::Live { user, password }),
            None => Err(AccountError::PasswordMissing),
        }
    } else if same_text(wanted.as_str(), "demo") {
        Ok(TradeNationAccount::Demo)
    } else {
        Err(AccountError::NotUnderstood(wanted))
    }
}

/// A candle's local time is its UTC time and the offset of its clock.
pub proof fn local_time_is_utc_and_the_offset(cd: BidAskCandleData)
    ensures
        cd.utc_nanos() + cd.offset_seconds * 1_000_000_000 == cd.local_nanos,
{
}

} // verus!
