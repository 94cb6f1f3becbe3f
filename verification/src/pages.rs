//! What the HTML screens decide outside their templates: which form the
//! login screen posts to, which wallet form is open, the statement's
//! paging, and how an operation's outcome turns into a banner and a path.
use vstd::prelude::*;

use crate::error::AppError;
use crate::flash::{business_flash, business_message, Flash};
use crate::i18n::Strings;
use crate::market::{coin_matches, has_id, is_first_with_id, range_of_tag, Coin, Range, Snapshot};
use crate::web::{market_link, market_url, needle_of, search_needle, utf8_of};

verus! {

/// The login or registration screen.
pub struct LoginPage {
    pub is_register: bool,
    pub csrf_token: String,
    pub flash: Option<Flash>,
    pub t: Strings,
}

impl LoginPage {
    /// This screen's path: where its form posts and where the language
    /// switch returns.
    pub fn form_path(&self) -> (r: &'static str)
        ensures
            r@ == (if self.is_register { "/register"@ } else { "/login"@ }),
    {
        if self.is_register {
            "/register"
        } else {
            "/login"
        }
    }
}

/// Which wallet form is open.
#[derive(Clone, Copy, Debug, PartialEq, Eq, Structural)]
pub enum WalletAction {
    /// No form open: the wallet overview.
    Overview,
    Deposit,
    Buy,
    Sell,
}

impl WalletAction {
    pub fn is_deposit(self) -> (r: bool)
        ensures
            r == (self == WalletAction::Deposit),
    {
        match self {
            WalletAction::Deposit => true,
            _ => false,
        }
    }

    pub fn is_buy(self) -> (r: bool)
        ensures
            r == (self == WalletAction::Buy),
    {
        match self {
            WalletAction::Buy => true,
            _ => false,
        }
    }

    pub fn is_sell(self) -> (r: bool)
        ensures
            r == (self == WalletAction::Sell),
    {
        match self {
            WalletAction::Sell => true,
            _ => false,
        }
    }

    /// The deposit button is the primary one unless another form is open.
    pub fn deposit_is_primary(self) -> (r: bool)
        ensures
            r == (self == WalletAction::Overview || self == WalletAction::Deposit),
    {
        match self {
            WalletAction::Overview | WalletAction::Deposit => true,
            _ => false,
        }
    }
}

/// The statement page on screen.
#[derive(Clone, Copy, Debug, PartialEq, Eq, Structural)]
pub struct StatementPage {
    pub page: u32,
    pub offset: i64,
    pub has_prev: bool,
}

/// The page requested (page 0 is the first), the offset of its first entry
/// and whether a previous page exists.
pub fn statement_page(page: u32) -> (r: StatementPage)
    ensures
        r.page == crate::wallet::page_window(page).0,
        r.offset == crate::wallet::page_window(page).1,
        r.has_prev == (r.page > 1),
{
    let (p, offset) = crate::wallet::page_offset(page);
    StatementPage { page: p, offset, has_prev: p > 1 }
}

/// How an operation of the wallet ends on screen: its success message and
/// the wallet, or, on a business error, the banner and the form to go back
/// to.
pub struct OperationFeedback {
    pub on_success: Flash,
    pub error_path: &'static str,
    pub error_action: WalletAction,
}

/// The banner, the path and the open form after an operation; an internal
/// error comes back as it is.
pub fn operation_outcome(outcome: Result<(), AppError>, feedback: OperationFeedback, t: &Strings) -> (r: Result<
    (Flash, &'static str, WalletAction),
    AppError,
>)
    ensures
        outcome is Ok ==> (r matches Ok((f, p, a)) && f.text() == feedback.on_success.text()
            && f.reports_error() == feedback.on_success.reports_error() && p@ == "/assets"@ && a
            == WalletAction::Overview),
        outcome matches Err(e) ==> match business_message(e, *t) {
            Some(m) => r matches Ok((f, p, a)) && f.text() == m && f.reports_error() && p
                == feedback.error_path && a == feedback.error_action,
            None => r == Err::<(Flash, &'static str, WalletAction), AppError>(e),
        },
{
    match outcome {
        Ok(()) => Ok((feedback.on_success, "/assets", WalletAction::Overview)),
        Err(error) => match business_flash(error, t) {
            Ok(flash) => Ok((flash, feedback.error_path, feedback.error_action)),
            Err(e) => Err(e),
        },
    }
}

/// A login failure that feeds the lockout counter: a wrong password and
/// an unknown user count alike; a database error does not.
pub fn counts_as_failed_login(error: &AppError) -> (r: bool)
    ensures
        r == (*error == AppError::InvalidCredentials || *error == AppError::UserDoesNotExist),
{
    match error {
        AppError::InvalidCredentials | AppError::UserDoesNotExist => true,
        _ => false,
    }
}

/// The indices, in ranking order, of the coins the side list shows: all
/// of them without a search term, else those the term matches.
pub open spec fn listed_indices(coins: Seq<Coin>, needle: Seq<char>, upto: nat) -> Seq<usize>
    decreases upto,
{
    if upto == 0 {
        Seq::empty()
    } else {
        let i = (upto - 1) as nat;
        let before = listed_indices(coins, needle, i);
        if needle.len() == 0 || coin_matches(coins[i as int], needle) {
            before.push(i as usize)
        } else {
            before
        }
    }
}

/// The window a query asks for: its tag when known, else the week.
pub open spec fn requested_range(tag: Option<Seq<char>>) -> Range {
    match tag {
        Some(t) => match range_of_tag(t) {
            Some(r) => r,
            None => Range::Week,
        },
        None => Range::Week,
    }
}

/// Everything the market screen decides from its query string: the window,
/// the normalised search, the coin in focus, the coins listed, and the
/// links that keep that state (the current one, and the same with the day
/// or the week window).
pub struct MarketState {
    pub range: Range,
    pub query: String,
    pub selected: Option<usize>,
    pub listed: Vec<usize>,
    pub state_url: String,
    pub day_url: String,
    pub week_url: String,
}

/// The market screen's state for a query `coin`, `range`, `q`: a missing or
/// unknown window is the week; the coin in focus is the one asked for or
/// the first of the ranking; the links carry coin, window and search.
pub fn market_state(snapshot: &Snapshot, coin: Option<&str>, range: Option<&str>, q: Option<&str>) -> (r: MarketState)
    ensures
        r.range == requested_range(
            match range {
                Some(t) => Some(t@),
                None => None,
            },
        ),
        r.query@ == needle_of(
            match q {
                Some(s) => s@,
                None => Seq::empty(),
            },
        ),
        snapshot.coins@.len() == 0 ==> r.selected is None,
        coin matches Some(k) ==> (has_id(snapshot.coins@, k@) ==> (r.selected matches Some(i)
            && is_first_with_id(snapshot.coins@, k@, i as int))),
        !(coin matches Some(k) && has_id(snapshot.coins@, k@)) && snapshot.coins@.len() > 0
            ==> r.selected == Some(0usize),
        r.listed@ == listed_indices(snapshot.coins@, r.query@, snapshot.coins@.len()),
        ({
            let id = match r.selected {
                Some(i) => snapshot.coins@[i as int].id@,
                None => Seq::empty(),
            };
            &&& r.state_url@ == market_link(id, r.range, vstd::utf8::encode_utf8(r.query@), r.query@.len() == 0)
            &&& r.day_url@ == market_link(id, Range::Day, vstd::utf8::encode_utf8(r.query@), r.query@.len() == 0)
            &&& r.week_url@ == market_link(id, Range::Week, vstd::utf8::encode_utf8(r.query@), r.query@.len() == 0)
        }),
{
    let chosen = match range {
        Some(t) => match Range::from_tag(t) {
            Some(r) => r,
            None => Range::Week,
        },
        None => Range::Week,
    };
    let needle = search_needle(q);
    let selected = snapshot.select_index(coin);
    let mut listed: Vec<usize> = Vec::new();
    let mut i: usize = 0;
    let empty_needle = needle.as_str().is_empty();
    while i < snapshot.coins.len()
        invariant
            i <= snapshot.coins@.len(),
            empty_needle == (needle@.len() == 0),
            listed@ == listed_indices(snapshot.coins@, needle@, i as nat),
        decreases snapshot.coins@.len() - i,
    {
        if empty_needle || snapshot.coins[i].matches(needle.as_str()) {
            listed.push(i);
        }
        i = i + 1;
    }
    proof {
        reveal_strlit("");
    }
    let id: &str = match selected {
        Some(k) => snapshot.coins[k].id.as_str(),
        None => "",
    };
    let state_url = market_url(id, chosen, needle.as_str());
    let day_url = market_url(id, Range::Day, needle.as_str());
    let week_url = market_url(id, Range::Week, needle.as_str());
    MarketState { range: chosen, query: needle, selected, listed, state_url, day_url, week_url }
}

} // verus!
