//! The conversation engine: a finite-state-machine dispatcher.
//!
//! Given one inbound event — a slash command, free text, or a button token —
//! and the session's current state, it decides the next state, applies the
//! matching session-store mutation, and names the side effect the caller
//! must perform: reply with an intent, fetch a quote or a price and come
//! back, broadcast, or stay silent. A banned chat's event is dropped before
//! any of that. Everything the engine does to the store is stated in
//! `text_step_ok` and `button_step_ok`, one clause per row of the
//! transition table.

use crate::bytes::{bytes_eq, canonical_ticker, copy_bytes, parse_i64, split_once, trim,
    parse_int_spec, trim_spec, upper_spec};
use crate::portfolio::{TradeError, TradeReceipt};
use crate::store::{ConversationState, SessionStore, StoreStats};
use crate::ADMIN_CHAT_ID;
use vstd::prelude::*;

verus! {

/// The slash commands the terminal recognizes.
#[derive(Clone, Copy, Debug, PartialEq, Eq, Structural)]
pub enum Command {
    Start,
    Help,
    Kripto,
    Saham,
    Solana,
    Sim,
    Panel,
    RealBuy,
}

/// Which provider a lookup effect goes to.
#[derive(Clone, Copy, Debug, PartialEq, Eq, Structural)]
pub enum QuoteKind {
    Crypto,
    Stock,
    Solana,
}

/// Which side of a simulated trade a price is needed for.
#[derive(Clone, Copy, Debug, PartialEq, Eq, Structural)]
pub enum TradeSide {
    Buy,
    Sell,
}

/// What the caller should render. Payloads are data; formatting is the
/// presentation layer's concern.
#[derive(Debug)]
pub enum Intent {
    Welcome,
    Help,
    SimMenu,
    PromptCrypto,
    PromptStock,
    PromptSolana,
    PromptRealBuy,
    PromptBuy,
    PromptSell,
    PromptWatchlistAdd,
    PromptBroadcast,
    PromptBanId,
    PromptUnbanId,
    PromptGiftId,
    PromptDirectMsg,
    PromptAddGroup,
    PromptRemoveGroup,
    AccessDenied,
    AdminOverview(StoreStats),
    AdminUsers(Vec<i64>),
    WatchlistShow(Vec<Vec<u8>>),
    WatchlistAdded(Vec<u8>),
    WatchlistCleared,
    RealBuyEcho(Vec<u8>),
    UserBanned(i64),
    UserUnbanned(i64),
    PremiumGranted(i64),
    GroupAdded(i64),
    GroupRemoved(i64),
    SystemStatus,
    Hint,
    FeatureActive,
}

/// The side effect one handled event asks of the caller.
#[derive(Debug)]
pub enum Effect {
    /// Nothing: the event was dropped or needs no answer.
    Silent,
    /// Send one reply to the requesting chat.
    Respond(Intent),
    /// Fetch one quote for the query, normalize it, and render the result.
    FetchQuote(QuoteKind, Vec<u8>),
    /// Fetch the current price of the symbol, then call `settle_trade`.
    FetchTradePrice(TradeSide, Vec<u8>),
    /// Fetch the market-sentiment reading and render it.
    FetchSentiment,
    /// Fetch the multi-symbol market snapshot and render it.
    FetchPulse,
    /// Fetch a quote for each listed ticker and render them in order.
    FetchWatchlistPrices(Vec<Vec<u8>>),
    /// Fetch a price for each held symbol, then call `valuation`.
    FetchPortfolioPrices(Vec<Vec<u8>>),
    /// Send the payload to every listed chat, isolating per-recipient
    /// failures, then report how many sends succeeded.
    Broadcast(Vec<i64>, Vec<u8>),
    /// Send the payload to the one chat.
    DirectSend(i64, Vec<u8>),
}

/// The bytes of `/start`.
pub open spec fn lit_cmd_start() -> Seq<u8> {
    seq![47u8, 115u8, 116u8, 97u8, 114u8, 116u8]
}

/// The bytes of `/help`.
pub open spec fn lit_cmd_help() -> Seq<u8> {
    seq![47u8, 104u8, 101u8, 108u8, 112u8]
}

/// The bytes of `/kripto`.
pub open spec fn lit_cmd_kripto() -> Seq<u8> {
    seq![47u8, 107u8, 114u8, 105u8, 112u8, 116u8, 111u8]
}

/// The bytes of `/saham`.
pub open spec fn lit_cmd_saham() -> Seq<u8> {
    seq![47u8, 115u8, 97u8, 104u8, 97u8, 109u8]
}

/// The bytes of `/solana`.
pub open spec fn lit_cmd_solana() -> Seq<u8> {
    seq![47u8, 115u8, 111u8, 108u8, 97u8, 110u8, 97u8]
}

/// The bytes of `/sim`.
pub open spec fn lit_cmd_sim() -> Seq<u8> {
    seq![47u8, 115u8, 105u8, 109u8]
}

/// The bytes of `/panel`.
pub open spec fn lit_cmd_panel() -> Seq<u8> {
    seq![47u8, 112u8, 97u8, 110u8, 101u8, 108u8]
}

/// The bytes of `/realbuy`.
pub open spec fn lit_cmd_realbuy() -> Seq<u8> {
    seq![47u8, 114u8, 101u8, 97u8, 108u8, 98u8, 117u8, 121u8]
}

/// What a recognized command's text is.
pub open spec fn cmd_spec(t: Seq<u8>) -> Option<Command> {
    if t == lit_cmd_start() {
        Some(Command::Start)
    } else if t == lit_cmd_help() {
        Some(Command::Help)
    } else if t == lit_cmd_kripto() {
        Some(Command::Kripto)
    } else if t == lit_cmd_saham() {
        Some(Command::Saham)
    } else if t == lit_cmd_solana() {
        Some(Command::Solana)
    } else if t == lit_cmd_sim() {
        Some(Command::Sim)
    } else if t == lit_cmd_panel() {
        Some(Command::Panel)
    } else if t == lit_cmd_realbuy() {
        Some(Command::RealBuy)
    } else {
        None
    }
}

/// Recognize a slash command, by exact match as the chat transport sends it.
pub fn parse_command(text: &Vec<u8>) -> (r: Option<Command>)
    ensures
        r == cmd_spec(text@),
{
    if ({
        let lit: Vec<u8> = vec![47u8, 115u8, 116u8, 97u8, 114u8, 116u8];
        proof {
            assert(lit@ =~= lit_cmd_start());
        }
        bytes_eq(text, &lit)
    }) {
        Some(Command::Start)
    } else if ({
        let lit: Vec<u8> = vec![47u8, 104u8, 101u8, 108u8, 112u8];
        proof {
            assert(lit@ =~= lit_cmd_help());
        }
        bytes_eq(text, &lit)
    }) {
        Some(Command::Help)
    } else if ({
        let lit: Vec<u8> = vec![47u8, 107u8, 114u8, 105u8, 112u8, 116u8, 111u8];
        proof {
            assert(lit@ =~= lit_cmd_kripto());
        }
        bytes_eq(text, &lit)
    }) {
        Some(Command::Kripto)
    } else if ({
        let lit: Vec<u8> = vec![47u8, 115u8, 97u8, 104u8, 97u8, 109u8];
        proof {
            assert(lit@ =~= lit_cmd_saham());
        }
        bytes_eq(text, &lit)
    }) {
        Some(Command::Saham)
    } else if ({
        let lit: Vec<u8> = vec![47u8, 115u8, 111u8, 108u8, 97u8, 110u8, 97u8];
        proof {
            assert(lit@ =~= lit_cmd_solana());
        }
        bytes_eq(text, &lit)
    }) {
        Some(Command::Solana)
    } else if ({
        let lit: Vec<u8> = vec![47u8, 115u8, 105u8, 109u8];
        proof {
            assert(lit@ =~= lit_cmd_sim());
        }
        bytes_eq(text, &lit)
    }) {
        Some(Command::Sim)
    } else if ({
        let lit: Vec<u8> = vec![47u8, 112u8, 97u8, 110u8, 101u8, 108u8];
        proof {
            assert(lit@ =~= lit_cmd_panel());
        }
        bytes_eq(text, &lit)
    }) {
        Some(Command::Panel)
    } else if ({
        let lit: Vec<u8> = vec![47u8, 114u8, 101u8, 97u8, 108u8, 98u8, 117u8, 121u8];
        proof {
            assert(lit@ =~= lit_cmd_realbuy());
        }
        bytes_eq(text, &lit)
    }) {
        Some(Command::RealBuy)
    } else {
        None
    }
}

/// The button tokens the inline keyboards send back.
#[derive(Clone, Copy, Debug, PartialEq, Eq, Structural)]
pub enum Button {
    BackToMain,
    BackToPanel,
    MenuCrypto,
    MenuSharia,
    MenuSolana,
    MenuSimMain,
    MenuSentiment,
    SentimentFng,
    SentimentPulse,
    MenuWatchlist,
    WatchlistAdd,
    WatchlistClear,
    WatchlistCheck,
    MenuSolanaReal,
    MenuHelp,
    MenuBuy,
    MenuSell,
    MenuPortfolio,
    AdminDashboard,
    AdminUsers,
    AdminBroadcast,
    AdminBan,
    AdminUnban,
    AdminGiftPremium,
    AdminDirectMsg,
    AdminAddGroup,
    AdminRemoveGroup,
    AdminWallet,
    AdminAnalytics,
    AdminSystem,
    Unknown,
}

/// The bytes of the `back_to_main` token.
pub open spec fn lit_btn_back_to_main() -> Seq<u8> {
    seq![98u8, 97u8, 99u8, 107u8, 95u8, 116u8, 111u8, 95u8, 109u8, 97u8, 105u8, 110u8]
}

/// The bytes of the `back_to_panel` token.
pub open spec fn lit_btn_back_to_panel() -> Seq<u8> {
    seq![98u8, 97u8, 99u8, 107u8, 95u8, 116u8, 111u8, 95u8, 112u8, 97u8, 110u8, 101u8, 108u8]
}

/// The bytes of the `menu_crypto` token.
pub open spec fn lit_btn_menu_crypto() -> Seq<u8> {
    seq![109u8, 101u8, 110u8, 117u8, 95u8, 99u8, 114u8, 121u8, 112u8, 116u8, 111u8]
}

/// The bytes of the `menu_sharia` token.
pub open spec fn lit_btn_menu_sharia() -> Seq<u8> {
    seq![109u8, 101u8, 110u8, 117u8, 95u8, 115u8, 104u8, 97u8, 114u8, 105u8, 97u8]
}

/// The bytes of the `menu_solana` token.
pub open spec fn lit_btn_menu_solana() -> Seq<u8> {
    seq![109u8, 101u8, 110u8, 117u8, 95u8, 115u8, 111u8, 108u8, 97u8, 110u8, 97u8]
}

/// The bytes of the `menu_sim_main` token.
pub open spec fn lit_btn_menu_sim_main() -> Seq<u8> {
    seq![109u8, 101u8, 110u8, 117u8, 95u8, 115u8, 105u8, 109u8, 95u8, 109u8, 97u8, 105u8, 110u8]
}

/// The bytes of the `menu_sentiment_info` token.
pub open spec fn lit_btn_menu_sentiment_info() -> Seq<u8> {
    seq![109u8, 101u8, 110u8, 117u8, 95u8, 115u8, 101u8, 110u8, 116u8, 105u8, 109u8, 101u8, 110u8, 116u8, 95u8, 105u8, 110u8, 102u8, 111u8]
}

/// The bytes of the `sentiment_fng` token.
pub open spec fn lit_btn_sentiment_fng() -> Seq<u8> {
    seq![115u8, 101u8, 110u8, 116u8, 105u8, 109u8, 101u8, 110u8, 116u8, 95u8, 102u8, 110u8, 103u8]
}

/// The bytes of the `sentiment_pulse` token.
pub open spec fn lit_btn_sentiment_pulse() -> Seq<u8> {
    seq![115u8, 101u8, 110u8, 116u8, 105u8, 109u8, 101u8, 110u8, 116u8, 95u8, 112u8, 117u8, 108u8, 115u8, 101u8]
}

/// The bytes of the `menu_watchlist` token.
pub open spec fn lit_btn_menu_watchlist() -> Seq<u8> {
    seq![109u8, 101u8, 110u8, 117u8, 95u8, 119u8, 97u8, 116u8, 99u8, 104u8, 108u8, 105u8, 115u8, 116u8]
}

/// The bytes of the `watchlist_add` token.
pub open spec fn lit_btn_watchlist_add() -> Seq<u8> {
    seq![119u8, 97u8, 116u8, 99u8, 104u8, 108u8, 105u8, 115u8, 116u8, 95u8, 97u8, 100u8, 100u8]
}

/// The bytes of the `watchlist_clear` token.
pub open spec fn lit_btn_watchlist_clear() -> Seq<u8> {
    seq![119u8, 97u8, 116u8, 99u8, 104u8, 108u8, 105u8, 115u8, 116u8, 95u8, 99u8, 108u8, 101u8, 97u8, 114u8]
}

/// The bytes of the `watchlist_check` token.
pub open spec fn lit_btn_watchlist_check() -> Seq<u8> {
    seq![119u8, 97u8, 116u8, 99u8, 104u8, 108u8, 105u8, 115u8, 116u8, 95u8, 99u8, 104u8, 101u8, 99u8, 107u8]
}

/// The bytes of the `menu_solana_real` token.
pub open spec fn lit_btn_menu_solana_real() -> Seq<u8> {
    seq![109u8, 101u8, 110u8, 117u8, 95u8, 115u8, 111u8, 108u8, 97u8, 110u8, 97u8, 95u8, 114u8, 101u8, 97u8, 108u8]
}

/// The bytes of the `menu_help` token.
pub open spec fn lit_btn_menu_help() -> Seq<u8> {
    seq![109u8, 101u8, 110u8, 117u8, 95u8, 104u8, 101u8, 108u8, 112u8]
}

/// The bytes of the `menu_buy` token.
pub open spec fn lit_btn_menu_buy() -> Seq<u8> {
    seq![109u8, 101u8, 110u8, 117u8, 95u8, 98u8, 117u8, 121u8]
}

/// The bytes of the `menu_sell` token.
pub open spec fn lit_btn_menu_sell() -> Seq<u8> {
    seq![109u8, 101u8, 110u8, 117u8, 95u8, 115u8, 101u8, 108u8, 108u8]
}

/// The bytes of the `menu_portfolio` token.
pub open spec fn lit_btn_menu_portfolio() -> Seq<u8> {
    seq![109u8, 101u8, 110u8, 117u8, 95u8, 112u8, 111u8, 114u8, 116u8, 102u8, 111u8, 108u8, 105u8, 111u8]
}

/// The bytes of the `admin_dashboard` token.
pub open spec fn lit_btn_admin_dashboard() -> Seq<u8> {
    seq![97u8, 100u8, 109u8, 105u8, 110u8, 95u8, 100u8, 97u8, 115u8, 104u8, 98u8, 111u8, 97u8, 114u8, 100u8]
}

/// The bytes of the `admin_users` token.
pub open spec fn lit_btn_admin_users() -> Seq<u8> {
    seq![97u8, 100u8, 109u8, 105u8, 110u8, 95u8, 117u8, 115u8, 101u8, 114u8, 115u8]
}

/// The bytes of the `admin_broadcast` token.
pub open spec fn lit_btn_admin_broadcast() -> Seq<u8> {
    seq![97u8, 100u8, 109u8, 105u8, 110u8, 95u8, 98u8, 114u8, 111u8, 97u8, 100u8, 99u8, 97u8, 115u8, 116u8]
}

/// The bytes of the `admin_ban` token.
pub open spec fn lit_btn_admin_ban() -> Seq<u8> {
    seq![97u8, 100u8, 109u8, 105u8, 110u8, 95u8, 98u8, 97u8, 110u8]
}

/// The bytes of the `admin_unban` token.
pub open spec fn lit_btn_admin_unban() -> Seq<u8> {
    seq![97u8, 100u8, 109u8, 105u8, 110u8, 95u8, 117u8, 110u8, 98u8, 97u8, 110u8]
}

/// The bytes of the `admin_gift_premium` token.
pub open spec fn lit_btn_admin_gift_premium() -> Seq<u8> {
    seq![97u8, 100u8, 109u8, 105u8, 110u8, 95u8, 103u8, 105u8, 102u8, 116u8, 95u8, 112u8, 114u8, 101u8, 109u8, 105u8, 117u8, 109u8]
}

/// The bytes of the `admin_dm` token.
pub open spec fn lit_btn_admin_dm() -> Seq<u8> {
    seq![97u8, 100u8, 109u8, 105u8, 110u8, 95u8, 100u8, 109u8]
}

/// The bytes of the `admin_add_group` token.
pub open spec fn lit_btn_admin_add_group() -> Seq<u8> {
    seq![97u8, 100u8, 109u8, 105u8, 110u8, 95u8, 97u8, 100u8, 100u8, 95u8, 103u8, 114u8, 111u8, 117u8, 112u8]
}

/// The bytes of the `admin_rem_group` token.
pub open spec fn lit_btn_admin_rem_group() -> Seq<u8> {
    seq![97u8, 100u8, 109u8, 105u8, 110u8, 95u8, 114u8, 101u8, 109u8, 95u8, 103u8, 114u8, 111u8, 117u8, 112u8]
}

/// The bytes of the `admin_wallet` token.
pub open spec fn lit_btn_admin_wallet() -> Seq<u8> {
    seq![97u8, 100u8, 109u8, 105u8, 110u8, 95u8, 119u8, 97u8, 108u8, 108u8, 101u8, 116u8]
}

/// The bytes of the `admin_analytics` token.
pub open spec fn lit_btn_admin_analytics() -> Seq<u8> {
    seq![97u8, 100u8, 109u8, 105u8, 110u8, 95u8, 97u8, 110u8, 97u8, 108u8, 121u8, 116u8, 105u8, 99u8, 115u8]
}

/// The bytes of the `admin_system` token.
pub open spec fn lit_btn_admin_system() -> Seq<u8> {
    seq![97u8, 100u8, 109u8, 105u8, 110u8, 95u8, 115u8, 121u8, 115u8, 116u8, 101u8, 109u8]
}

/// Which button a callback token names.
pub open spec fn btn_spec(t: Seq<u8>) -> Button {
    if t == lit_btn_back_to_main() {
        Button::BackToMain
    } else if t == lit_btn_back_to_panel() {
        Button::BackToPanel
    } else if t == lit_btn_menu_crypto() {
        Button::MenuCrypto
    } else if t == lit_btn_menu_sharia() {
        Button::MenuSharia
    } else if t == lit_btn_menu_solana() {
        Button::MenuSolana
    } else if t == lit_btn_menu_sim_main() {
        Button::MenuSimMain
    } else if t == lit_btn_menu_sentiment_info() {
        Button::MenuSentiment
    } else if t == lit_btn_sentiment_fng() {
        Button::SentimentFng
    } else if t == lit_btn_sentiment_pulse() {
        Button::SentimentPulse
    } else if t == lit_btn_menu_watchlist() {
        Button::MenuWatchlist
    } else if t == lit_btn_watchlist_add() {
        Button::WatchlistAdd
    } else if t == lit_btn_watchlist_clear() {
        Button::WatchlistClear
    } else if t == lit_btn_watchlist_check() {
        Button::WatchlistCheck
    } else if t == lit_btn_menu_solana_real() {
        Button::MenuSolanaReal
    } else if t == lit_btn_menu_help() {
        Button::MenuHelp
    } else if t == lit_btn_menu_buy() {
        Button::MenuBuy
    } else if t == lit_btn_menu_sell() {
        Button::MenuSell
    } else if t == lit_btn_menu_portfolio() {
        Button::MenuPortfolio
    } else if t == lit_btn_admin_dashboard() {
        Button::AdminDashboard
    } else if t == lit_btn_admin_users() {
        Button::AdminUsers
    } else if t == lit_btn_admin_broadcast() {
        Button::AdminBroadcast
    } else if t == lit_btn_admin_ban() {
        Button::AdminBan
    } else if t == lit_btn_admin_unban() {
        Button::AdminUnban
    } else if t == lit_btn_admin_gift_premium() {
        Button::AdminGiftPremium
    } else if t == lit_btn_admin_dm() {
        Button::AdminDirectMsg
    } else if t == lit_btn_admin_add_group() {
        Button::AdminAddGroup
    } else if t == lit_btn_admin_rem_group() {
        Button::AdminRemoveGroup
    } else if t == lit_btn_admin_wallet() {
        Button::AdminWallet
    } else if t == lit_btn_admin_analytics() {
        Button::AdminAnalytics
    } else if t == lit_btn_admin_system() {
        Button::AdminSystem
    } else {
        Button::Unknown
    }
}

/// Recognize a callback token.
pub fn parse_button(token: &Vec<u8>) -> (r: Button)
    ensures
        r == btn_spec(token@),
{
    if ({
        let lit: Vec<u8> = vec![98u8, 97u8, 99u8, 107u8, 95u8, 116u8, 111u8, 95u8, 109u8, 97u8, 105u8, 110u8];
        proof {
            assert(lit@ =~= lit_btn_back_to_main());
        }
        bytes_eq(token, &lit)
    }) {
        Button::BackToMain
    } else if ({
        let lit: Vec<u8> = vec![98u8, 97u8, 99u8, 107u8, 95u8, 116u8, 111u8, 95u8, 112u8, 97u8, 110u8, 101u8, 108u8];
        proof {
            assert(lit@ =~= lit_btn_back_to_panel());
        }
        bytes_eq(token, &lit)
    }) {
        Button::BackToPanel
    } else if ({
        let lit: Vec<u8> = vec![109u8, 101u8, 110u8, 117u8, 95u8, 99u8, 114u8, 121u8, 112u8, 116u8, 111u8];
        proof {
            assert(lit@ =~= lit_btn_menu_crypto());
        }
        bytes_eq(token, &lit)
    }) {
        Button::MenuCrypto
    } else if ({
        let lit: Vec<u8> = vec![109u8, 101u8, 110u8, 117u8, 95u8, 115u8, 104u8, 97u8, 114u8, 105u8, 97u8];
        proof {
            assert(lit@ =~= lit_btn_menu_sharia());
        }
        bytes_eq(token, &lit)
    }) {
        Button::MenuSharia
    } else if ({
        let lit: Vec<u8> = vec![109u8, 101u8, 110u8, 117u8, 95u8, 115u8, 111u8, 108u8, 97u8, 110u8, 97u8];
        proof {
            assert(lit@ =~= lit_btn_menu_solana());
        }
        bytes_eq(token, &lit)
    }) {
        Button::MenuSolana
    } else if ({
        let lit: Vec<u8> = vec![109u8, 101u8, 110u8, 117u8, 95u8, 115u8, 105u8, 109u8, 95u8, 109u8, 97u8, 105u8, 110u8];
        proof {
            assert(lit@ =~= lit_btn_menu_sim_main());
        }
        bytes_eq(token, &lit)
    }) {
        Button::MenuSimMain
    } else if ({
        let lit: Vec<u8> = vec![109u8, 101u8, 110u8, 117u8, 95u8, 115u8, 101u8, 110u8, 116u8, 105u8, 109u8, 101u8, 110u8, 116u8, 95u8, 105u8, 110u8, 102u8, 111u8];
        proof {
            assert(lit@ =~= lit_btn_menu_sentiment_info());
        }
        bytes_eq(token, &lit)
    }) {
        Button::MenuSentiment
    } else if ({
        let lit: Vec<u8> = vec![115u8, 101u8, 110u8, 116u8, 105u8, 109u8, 101u8, 110u8, 116u8, 95u8, 102u8, 110u8, 103u8];
        proof {
            assert(lit@ =~= lit_btn_sentiment_fng());
        }
        bytes_eq(token, &lit)
    }) {
        Button::SentimentFng
    } else if ({
        let lit: Vec<u8> = vec![115u8, 101u8, 110u8, 116u8, 105u8, 109u8, 101u8, 110u8, 116u8, 95u8, 112u8, 117u8, 108u8, 115u8, 101u8];
        proof {
            assert(lit@ =~= lit_btn_sentiment_pulse());
        }
        bytes_eq(token, &lit)
    }) {
        Button::SentimentPulse
    } else if ({
        let lit: Vec<u8> = vec![109u8, 101u8, 110u8, 117u8, 95u8, 119u8, 97u8, 116u8, 99u8, 104u8, 108u8, 105u8, 115u8, 116u8];
        proof {
            assert(lit@ =~= lit_btn_menu_watchlist());
        }
        bytes_eq(token, &lit)
    }) {
        Button::MenuWatchlist
    } else if ({
        let lit: Vec<u8> = vec![119u8, 97u8, 116u8, 99u8, 104u8, 108u8, 105u8, 115u8, 116u8, 95u8, 97u8, 100u8, 100u8];
        proof {
            assert(lit@ =~= lit_btn_watchlist_add());
        }
        bytes_eq(token, &lit)
    }) {
        Button::WatchlistAdd
    } else if ({
        let lit: Vec<u8> = vec![119u8, 97u8, 116u8, 99u8, 104u8, 108u8, 105u8, 115u8, 116u8, 95u8, 99u8, 108u8, 101u8, 97u8, 114u8];
        proof {
            assert(lit@ =~= lit_btn_watchlist_clear());
        }
        bytes_eq(token, &lit)
    }) {
        Button::WatchlistClear
    } else if ({
        let lit: Vec<u8> = vec![119u8, 97u8, 116u8, 99u8, 104u8, 108u8, 105u8, 115u8, 116u8, 95u8, 99u8, 104u8, 101u8, 99u8, 107u8];
        proof {
            assert(lit@ =~= lit_btn_watchlist_check());
        }
        bytes_eq(token, &lit)
    }) {
        Button::WatchlistCheck
    } else if ({
        let lit: Vec<u8> = vec![109u8, 101u8, 110u8, 117u8, 95u8, 115u8, 111u8, 108u8, 97u8, 110u8, 97u8, 95u8, 114u8, 101u8, 97u8, 108u8];
        proof {
            assert(lit@ =~= lit_btn_menu_solana_real());
        }
        bytes_eq(token, &lit)
    }) {
        Button::MenuSolanaReal
    } else if ({
        let lit: Vec<u8> = vec![109u8, 101u8, 110u8, 117u8, 95u8, 104u8, 101u8, 108u8, 112u8];
        proof {
            assert(lit@ =~= lit_btn_menu_help());
        }
        bytes_eq(token, &lit)
    }) {
        Button::MenuHelp
    } else if ({
        let lit: Vec<u8> = vec![109u8, 101u8, 110u8, 117u8, 95u8, 98u8, 117u8, 121u8];
        proof {
            assert(lit@ =~= lit_btn_menu_buy());
        }
        bytes_eq(token, &lit)
    }) {
        Button::MenuBuy
    } else if ({
        let lit: Vec<u8> = vec![109u8, 101u8, 110u8, 117u8, 95u8, 115u8, 101u8, 108u8, 108u8];
        proof {
            assert(lit@ =~= lit_btn_menu_sell());
        }
        bytes_eq(token, &lit)
    }) {
        Button::MenuSell
    } else if ({
        let lit: Vec<u8> = vec![109u8, 101u8, 110u8, 117u8, 95u8, 112u8, 111u8, 114u8, 116u8, 102u8, 111u8, 108u8, 105u8, 111u8];
        proof {
            assert(lit@ =~= lit_btn_menu_portfolio());
        }
        bytes_eq(token, &lit)
    }) {
        Button::MenuPortfolio
    } else if ({
        let lit: Vec<u8> = vec![97u8, 100u8, 109u8, 105u8, 110u8, 95u8, 100u8, 97u8, 115u8, 104u8, 98u8, 111u8, 97u8, 114u8, 100u8];
        proof {
            assert(lit@ =~= lit_btn_admin_dashboard());
        }
        bytes_eq(token, &lit)
    }) {
        Button::AdminDashboard
    } else if ({
        let lit: Vec<u8> = vec![97u8, 100u8, 109u8, 105u8, 110u8, 95u8, 117u8, 115u8, 101u8, 114u8, 115u8];
        proof {
            assert(lit@ =~= lit_btn_admin_users());
        }
        bytes_eq(token, &lit)
    }) {
        Button::AdminUsers
    } else if ({
        let lit: Vec<u8> = vec![97u8, 100u8, 109u8, 105u8, 110u8, 95u8, 98u8, 114u8, 111u8, 97u8, 100u8, 99u8, 97u8, 115u8, 116u8];
        proof {
            assert(lit@ =~= lit_btn_admin_broadcast());
        }
        bytes_eq(token, &lit)
    }) {
        Button::AdminBroadcast
    } else if ({
        let lit: Vec<u8> = vec![97u8, 100u8, 109u8, 105u8, 110u8, 95u8, 98u8, 97u8, 110u8];
        proof {
            assert(lit@ =~= lit_btn_admin_ban());
        }
        bytes_eq(token, &lit)
    }) {
        Button::AdminBan
    } else if ({
        let lit: Vec<u8> = vec![97u8, 100u8, 109u8, 105u8, 110u8, 95u8, 117u8, 110u8, 98u8, 97u8, 110u8];
        proof {
            assert(lit@ =~= lit_btn_admin_unban());
        }
        bytes_eq(token, &lit)
    }) {
        Button::AdminUnban
    } else if ({
        let lit: Vec<u8> = vec![97u8, 100u8, 109u8, 105u8, 110u8, 95u8, 103u8, 105u8, 102u8, 116u8, 95u8, 112u8, 114u8, 101u8, 109u8, 105u8, 117u8, 109u8];
        proof {
            assert(lit@ =~= lit_btn_admin_gift_premium());
        }
        bytes_eq(token, &lit)
    }) {
        Button::AdminGiftPremium
    } else if ({
        let lit: Vec<u8> = vec![97u8, 100u8, 109u8, 105u8, 110u8, 95u8, 100u8, 109u8];
        proof {
            assert(lit@ =~= lit_btn_admin_dm());
        }
        bytes_eq(token, &lit)
    }) {
        Button::AdminDirectMsg
    } else if ({
        let lit: Vec<u8> = vec![97u8, 100u8, 109u8, 105u8, 110u8, 95u8, 97u8, 100u8, 100u8, 95u8, 103u8, 114u8, 111u8, 117u8, 112u8];
        proof {
            assert(lit@ =~= lit_btn_admin_add_group());
        }
        bytes_eq(token, &lit)
    }) {
        Button::AdminAddGroup
    } else if ({
        let lit: Vec<u8> = vec![97u8, 100u8, 109u8, 105u8, 110u8, 95u8, 114u8, 101u8, 109u8, 95u8, 103u8, 114u8, 111u8, 117u8, 112u8];
        proof {
            assert(lit@ =~= lit_btn_admin_rem_group());
        }
        bytes_eq(token, &lit)
    }) {
        Button::AdminRemoveGroup
    } else if ({
        let lit: Vec<u8> = vec![97u8, 100u8, 109u8, 105u8, 110u8, 95u8, 119u8, 97u8, 108u8, 108u8, 101u8, 116u8];
        proof {
            assert(lit@ =~= lit_btn_admin_wallet());
        }
        bytes_eq(token, &lit)
    }) {
        Button::AdminWallet
    } else if ({
        let lit: Vec<u8> = vec![97u8, 100u8, 109u8, 105u8, 110u8, 95u8, 97u8, 110u8, 97u8, 108u8, 121u8, 116u8, 105u8, 99u8, 115u8];
        proof {
            assert(lit@ =~= lit_btn_admin_analytics());
        }
        bytes_eq(token, &lit)
    }) {
        Button::AdminAnalytics
    } else if ({
        let lit: Vec<u8> = vec![97u8, 100u8, 109u8, 105u8, 110u8, 95u8, 115u8, 121u8, 115u8, 116u8, 101u8, 109u8];
        proof {
            assert(lit@ =~= lit_btn_admin_system());
        }
        bytes_eq(token, &lit)
    }) {
        Button::AdminSystem
    } else {
        Button::Unknown
    }
}

/// The user registry after handling an event from `chat`: grown by exactly
/// that chat if it was new, in first-seen order.
pub open spec fn users_registered(pre: SessionStore, post: SessionStore, chat: i64) -> bool {
    if pre.users@.contains(chat) {
        post.users@ == pre.users@
    } else {
        post.users@ == pre.users@.push(chat)
    }
}

/// Handling moved this session to `st` and touched nothing else (apart from
/// the user registry, which the caller accounts for): no other session's
/// state, no portfolio, no watchlist, no ban or premium set.
pub open spec fn core_state_moved(
    pre: SessionStore,
    post: SessionStore,
    chat: i64,
    user: u64,
    st: ConversationState,
) -> bool {
    &&& post.state_of(chat, user) == st
    &&& (forall|c: i64, u: u64|
        !(c == chat && u == user) ==> post.state_of(c, u) == pre.state_of(c, u))
    &&& post.portfolios@ == pre.portfolios@
    &&& post.watchlists@ == pre.watchlists@
    &&& post.banned@ == pre.banned@
    &&& post.premium_users@ == pre.premium_users@
    &&& post.premium_groups@ == pre.premium_groups@
}

/// No state and no collection changed (apart from the user registry).
pub open spec fn core_untouched(pre: SessionStore, post: SessionStore) -> bool {
    &&& post.states@ == pre.states@
    &&& post.portfolios@ == pre.portfolios@
    &&& post.watchlists@ == pre.watchlists@
    &&& post.banned@ == pre.banned@
    &&& post.premium_users@ == pre.premium_users@
    &&& post.premium_groups@ == pre.premium_groups@
}

/// Handling moved this session to `st`, registered the chat, and touched
/// nothing else.
pub open spec fn step_state_only(
    pre: SessionStore,
    post: SessionStore,
    chat: i64,
    user: u64,
    st: ConversationState,
) -> bool {
    &&& users_registered(pre, post, chat)
    &&& core_state_moved(pre, post, chat, user, st)
}

/// There is a `|` in `t`.
pub open spec fn has_pipe(t: Seq<u8>) -> bool {
    exists|i: int| 0 <= i < t.len() && t[i] == 124
}

/// The index of the first `|` (meaningful when `has_pipe`).
pub open spec fn pipe_at(t: Seq<u8>) -> int {
    choose|i: int|
        0 <= i < t.len() && t[i] == 124 && (forall|j: int| 0 <= j < i ==> t[j] != 124)
}

proof fn lemma_pipe_at_is(t: Seq<u8>, i: int)
    requires
        0 <= i < t.len(),
        t[i] == 124,
        forall|j: int| 0 <= j < i ==> t[j] != 124,
    ensures
        has_pipe(t),
        pipe_at(t) == i,
{
    assert(has_pipe(t));
    let k = pipe_at(t);
}

/// What an admin direct-message payload `ID|text` denotes: the recipient id
/// and the message, or nothing when the payload is malformed.
pub open spec fn dm_spec(t: Seq<u8>) -> Option<(int, Seq<u8>)> {
    if has_pipe(t) {
        let k = pipe_at(t);
        match parse_int_spec(trim_spec(t.subrange(0, k))) {
            Some(n) => if i64::MIN <= n <= i64::MAX {
                Some((n, t.subrange(k + 1, t.len() as int)))
            } else {
                None
            },
            None => None,
        }
    } else {
        None
    }
}

/// What an admin-supplied chat id denotes, after trimming: an id in `i64`
/// range, or nothing.
pub open spec fn id_spec(t: Seq<u8>) -> Option<int> {
    match parse_int_spec(trim_spec(t)) {
        Some(n) => if i64::MIN <= n <= i64::MAX {
            Some(n)
        } else {
            None
        },
        None => None,
    }
}

/// The transition table for an inbound text message, one clause per row:
/// what the store must look like afterwards and which effect comes back,
/// for every combination of ban status, recognized command, and session
/// state.
/// The transition table for free text, one clause per session state. The
/// caller accounts for the user registry separately.
pub open spec fn free_step_core(
    pre: SessionStore,
    post: SessionStore,
    chat: i64,
    user: u64,
    text: Seq<u8>,
    eff: Effect,
) -> bool {
    match pre.state_of(chat, user) {
        ConversationState::Idle => core_untouched(pre, post) && eff
            == Effect::Respond(Intent::Hint),
        ConversationState::AwaitingCrypto => core_state_moved(pre, post, chat, user, ConversationState::Idle) && (eff matches Effect::FetchQuote(QuoteKind::Crypto, q) && q@ == upper_spec(
            trim_spec(text),
        )),
        ConversationState::AwaitingStock => core_state_moved(pre, post, chat, user, ConversationState::Idle) && (eff matches Effect::FetchQuote(QuoteKind::Stock, q) && q@ == upper_spec(
            trim_spec(text),
        )),
        ConversationState::AwaitingSolana => core_state_moved(pre, post, chat, user, ConversationState::Idle) && (eff matches Effect::FetchQuote(QuoteKind::Solana, q) && q@ == trim_spec(
            text,
        )),
        ConversationState::AwaitingRealBuy => core_state_moved(pre, post, chat, user, ConversationState::Idle) && (eff matches Effect::Respond(Intent::RealBuyEcho(e)) && e@ == trim_spec(text)),
        ConversationState::AwaitingBuyTicker => core_state_moved(pre, post, chat, user, ConversationState::Idle) && (eff matches Effect::FetchTradePrice(TradeSide::Buy, sym) && sym@
            == upper_spec(trim_spec(text))),
        ConversationState::AwaitingSellTicker => core_state_moved(pre, post, chat, user, ConversationState::Idle) && (eff matches Effect::FetchTradePrice(TradeSide::Sell, sym) && sym@
            == upper_spec(trim_spec(text))),
        ConversationState::AwaitingAddWatchlist => ({
            &&& post.state_of(chat, user) == ConversationState::Idle
            &&& (forall|c: i64, u: u64|
                !(c == chat && u == user) ==> post.state_of(c, u) == pre.state_of(c, u))
            &&& post.portfolios@ == pre.portfolios@
            &&& post.banned@ == pre.banned@
            &&& post.premium_users@ == pre.premium_users@
            &&& post.premium_groups@ == pre.premium_groups@
            // Append-only, order-preserving: exactly the old list
            // with the canonical ticker at the end.
            &&& post.watchlist_of(chat) == pre.watchlist_of(chat).push(
                upper_spec(trim_spec(text)),
            )
            &&& (forall|c: i64| c != chat ==> post.watchlist_of(c) == pre.watchlist_of(c))
            &&& (eff matches Effect::Respond(Intent::WatchlistAdded(t)) && t@ == upper_spec(
                trim_spec(text),
            ))
        }),
        ConversationState::AwaitingAdminBroadcast => if chat != ADMIN_CHAT_ID {
            core_state_moved(pre, post, chat, user, ConversationState::Idle) && eff
                == Effect::Silent
        } else {
            core_state_moved(pre, post, chat, user, ConversationState::Idle) && (eff matches
            Effect::Broadcast(ids, msg) && ids@ == post.users@ && msg@ == text)
        },
        ConversationState::AwaitingAdminBan => if chat != ADMIN_CHAT_ID {
            core_state_moved(pre, post, chat, user, ConversationState::Idle) && eff
                == Effect::Silent
        } else {
            match id_spec(text) {
                Some(n) => ({
                            &&& post.state_of(chat, user) == ConversationState::Idle
                    &&& (forall|c: i64, u: u64|
                        !(c == chat && u == user) ==> post.state_of(c, u) == pre.state_of(
                            c,
                            u,
                        ))
                    &&& post.portfolios@ == pre.portfolios@
                    &&& post.watchlists@ == pre.watchlists@
                    &&& post.premium_users@ == pre.premium_users@
                    &&& post.premium_groups@ == pre.premium_groups@
                    &&& (forall|c: i64|
                        post.banned@.contains(c) == (pre.banned@.contains(c) || c as int
                            == n))
                    &&& (eff matches Effect::Respond(Intent::UserBanned(id)) && id as int
                        == n)
                }),
                None => core_state_moved(pre, post, chat, user, ConversationState::Idle)
                    && eff == Effect::Silent,
            }
        },
        ConversationState::AwaitingAdminUnban => if chat != ADMIN_CHAT_ID {
            core_state_moved(pre, post, chat, user, ConversationState::Idle) && eff
                == Effect::Silent
        } else {
            match id_spec(text) {
                Some(n) => ({
                            &&& post.state_of(chat, user) == ConversationState::Idle
                    &&& (forall|c: i64, u: u64|
                        !(c == chat && u == user) ==> post.state_of(c, u) == pre.state_of(
                            c,
                            u,
                        ))
                    &&& post.portfolios@ == pre.portfolios@
                    &&& post.watchlists@ == pre.watchlists@
                    &&& post.premium_users@ == pre.premium_users@
                    &&& post.premium_groups@ == pre.premium_groups@
                    &&& (forall|c: i64|
                        c as int != n ==> post.banned@.contains(c) == pre.banned@.contains(
                            c,
                        ))
                    &&& (forall|c: i64|
                        c as int == n ==> !post.banned@.contains(c))
                    &&& (eff matches Effect::Respond(Intent::UserUnbanned(id)) && id as int
                        == n)
                }),
                None => core_state_moved(pre, post, chat, user, ConversationState::Idle)
                    && eff == Effect::Silent,
            }
        },
        ConversationState::AwaitingAdminGift => if chat != ADMIN_CHAT_ID {
            core_state_moved(pre, post, chat, user, ConversationState::Idle) && eff
                == Effect::Silent
        } else {
            match id_spec(text) {
                Some(n) => ({
                            &&& post.state_of(chat, user) == ConversationState::Idle
                    &&& (forall|c: i64, u: u64|
                        !(c == chat && u == user) ==> post.state_of(c, u) == pre.state_of(
                            c,
                            u,
                        ))
                    &&& post.portfolios@ == pre.portfolios@
                    &&& post.watchlists@ == pre.watchlists@
                    &&& post.banned@ == pre.banned@
                    &&& post.premium_groups@ == pre.premium_groups@
                    &&& (forall|c: i64|
                        post.premium_users@.contains(c) == (pre.premium_users@.contains(c)
                            || c as int == n))
                    &&& (eff matches Effect::Respond(Intent::PremiumGranted(id)) && id as int
                        == n)
                }),
                None => core_state_moved(pre, post, chat, user, ConversationState::Idle)
                    && eff == Effect::Silent,
            }
        },
        ConversationState::AwaitingAdminDirectMsg => if chat != ADMIN_CHAT_ID {
            core_state_moved(pre, post, chat, user, ConversationState::Idle) && eff
                == Effect::Silent
        } else {
            match dm_spec(text) {
                Some(pair) => core_state_moved(pre, post, chat, user, ConversationState::Idle)
                    && (eff matches Effect::DirectSend(id, msg) && id as int == pair.0
                    && msg@ == pair.1),
                None => core_state_moved(pre, post, chat, user, ConversationState::Idle)
                    && eff == Effect::Silent,
            }
        },
        ConversationState::AwaitingAdminAddGroup => if chat != ADMIN_CHAT_ID {
            core_state_moved(pre, post, chat, user, ConversationState::Idle) && eff
                == Effect::Silent
        } else {
            match id_spec(text) {
                Some(n) => ({
                            &&& post.state_of(chat, user) == ConversationState::Idle
                    &&& (forall|c: i64, u: u64|
                        !(c == chat && u == user) ==> post.state_of(c, u) == pre.state_of(
                            c,
                            u,
                        ))
                    &&& post.portfolios@ == pre.portfolios@
                    &&& post.watchlists@ == pre.watchlists@
                    &&& post.banned@ == pre.banned@
                    &&& post.premium_users@ == pre.premium_users@
                    &&& (forall|c: i64|
                        post.premium_groups@.contains(c) == (pre.premium_groups@.contains(
                            c,
                        ) || c as int == n))
                    &&& (eff matches Effect::Respond(Intent::GroupAdded(id)) && id as int
                        == n)
                }),
                None => core_state_moved(pre, post, chat, user, ConversationState::Idle)
                    && eff == Effect::Silent,
            }
        },
        ConversationState::AwaitingAdminRemoveGroup => if chat != ADMIN_CHAT_ID {
            core_state_moved(pre, post, chat, user, ConversationState::Idle) && eff
                == Effect::Silent
        } else {
            match id_spec(text) {
                Some(n) => ({
                            &&& post.state_of(chat, user) == ConversationState::Idle
                    &&& (forall|c: i64, u: u64|
                        !(c == chat && u == user) ==> post.state_of(c, u) == pre.state_of(
                            c,
                            u,
                        ))
                    &&& post.portfolios@ == pre.portfolios@
                    &&& post.watchlists@ == pre.watchlists@
                    &&& post.banned@ == pre.banned@
                    &&& post.premium_users@ == pre.premium_users@
                    &&& (forall|c: i64|
                        c as int != n ==> post.premium_groups@.contains(c)
                            == pre.premium_groups@.contains(c))
                    &&& (forall|c: i64|
                        c as int == n ==> !post.premium_groups@.contains(c))
                    &&& (eff matches Effect::Respond(Intent::GroupRemoved(id)) && id as int
                        == n)
                }),
                None => core_state_moved(pre, post, chat, user, ConversationState::Idle)
                    && eff == Effect::Silent,
            }
        },
    }
}

pub open spec fn text_step_ok(
    pre: SessionStore,
    post: SessionStore,
    chat: i64,
    user: u64,
    text: Seq<u8>,
    eff: Effect,
) -> bool {
    if pre.banned@.contains(chat) && chat != ADMIN_CHAT_ID {
        // A banned chat's event is dropped before dispatch: no state change,
        // no lookup, no reply.
        post == pre && eff == Effect::Silent
    } else {
        match cmd_spec(text) {
            Some(Command::Start) => step_state_only(pre, post, chat, user, ConversationState::Idle)
                && eff == Effect::Respond(Intent::Welcome),
            Some(Command::Help) => step_state_only(pre, post, chat, user, ConversationState::Idle)
                && eff == Effect::Respond(Intent::Help),
            Some(Command::Kripto) => step_state_only(
                pre,
                post,
                chat,
                user,
                ConversationState::AwaitingCrypto,
            ) && eff == Effect::Respond(Intent::PromptCrypto),
            Some(Command::Saham) => step_state_only(
                pre,
                post,
                chat,
                user,
                ConversationState::AwaitingStock,
            ) && eff == Effect::Respond(Intent::PromptStock),
            Some(Command::Solana) => step_state_only(
                pre,
                post,
                chat,
                user,
                ConversationState::AwaitingSolana,
            ) && eff == Effect::Respond(Intent::PromptSolana),
            Some(Command::RealBuy) => step_state_only(
                pre,
                post,
                chat,
                user,
                ConversationState::AwaitingRealBuy,
            ) && eff == Effect::Respond(Intent::PromptRealBuy),
            Some(Command::Sim) => step_state_only(pre, post, chat, user, ConversationState::Idle)
                && eff == Effect::Respond(Intent::SimMenu),
            Some(Command::Panel) => step_state_only(
                pre,
                post,
                chat,
                user,
                ConversationState::Idle,
            ) && (if chat == ADMIN_CHAT_ID {
                eff matches Effect::Respond(Intent::AdminOverview(st)) && st.users
                    == post.users@.len() && st.banned == post.banned@.len() && st.premium_users
                    == post.premium_users@.len() && st.premium_groups
                    == post.premium_groups@.len() && st.portfolios == post.portfolios@.len()
                    && st.watchlists == post.watchlists@.len()
            } else {
                eff == Effect::Respond(Intent::AccessDenied)
            }),
            None => users_registered(pre, post, chat) && free_step_core(
                pre,
                post,
                chat,
                user,
                text,
                eff,
            ),
        }
    }
}

/// Stores with the same state table assign every session the same state.
proof fn lemma_states_carry(a: SessionStore, b: SessionStore)
    requires
        a.states@ == b.states@,
    ensures
        forall|c: i64, u: u64| a.state_of(c, u) == b.state_of(c, u),
{
}

#[verifier::rlimit(100)]
/// Dispatch free text per the session's state. The chat is already
/// registered; the user registry is untouched here.
#[verifier::rlimit(100)]
fn handle_free_text(store: &mut SessionStore, chat: i64, user: u64, text: &Vec<u8>) -> (eff: Effect)
    requires
        old(store).wf(),
    ensures
        final(store).wf(),
        final(store).users@ == old(store).users@,
        free_step_core(*old(store), *final(store), chat, user, text@, eff),
{
    let st = store.get_state(chat, user);
    match st {
        ConversationState::Idle => Effect::Respond(Intent::Hint),
        ConversationState::AwaitingCrypto => {
            store.set_state(chat, user, ConversationState::Idle);
            Effect::FetchQuote(QuoteKind::Crypto, canonical_ticker(text))
        },
        ConversationState::AwaitingStock => {
            store.set_state(chat, user, ConversationState::Idle);
            Effect::FetchQuote(QuoteKind::Stock, canonical_ticker(text))
        },
        ConversationState::AwaitingSolana => {
            store.set_state(chat, user, ConversationState::Idle);
            Effect::FetchQuote(QuoteKind::Solana, trim(text))
        },
        ConversationState::AwaitingRealBuy => {
            store.set_state(chat, user, ConversationState::Idle);
            Effect::Respond(Intent::RealBuyEcho(trim(text)))
        },
        ConversationState::AwaitingBuyTicker => {
            store.set_state(chat, user, ConversationState::Idle);
            Effect::FetchTradePrice(TradeSide::Buy, canonical_ticker(text))
        },
        ConversationState::AwaitingSellTicker => {
            store.set_state(chat, user, ConversationState::Idle);
            Effect::FetchTradePrice(TradeSide::Sell, canonical_ticker(text))
        },
        ConversationState::AwaitingAddWatchlist => {
            store.set_state(chat, user, ConversationState::Idle);
            let ghost mid = *store;
            let t = canonical_ticker(text);
            store.watchlist_add(chat, &t);
            proof {
                assert(mid.watchlist_of(chat) == old(store).watchlist_of(chat));
                assert(final(store).watchlist_of(chat)
                    == old(store).watchlist_of(chat).push(upper_spec(trim_spec(text@))));
                assert forall|c: i64| c != chat implies final(store).watchlist_of(c)
                    == old(store).watchlist_of(c) by {
                    assert(mid.watchlist_of(c) == old(store).watchlist_of(c));
                }
                assert forall|c: i64, u: u64| !(c == chat && u == user) implies final(store).state_of(c, u) == old(store).state_of(c, u) by {
                    assert(final(store).state_of(c, u) == mid.state_of(c, u));
                    assert(mid.state_of(c, u) == old(store).state_of(c, u));
                }
                assert(final(store).state_of(chat, user) == mid.state_of(chat, user));
            }
            Effect::Respond(Intent::WatchlistAdded(t))
        },
        ConversationState::AwaitingAdminBroadcast => {
            store.set_state(chat, user, ConversationState::Idle);
            if crate::is_admin(chat) {
                let ids = store.all_user_ids();
                Effect::Broadcast(ids, copy_bytes(text))
            } else {
                Effect::Silent
            }
        },
        ConversationState::AwaitingAdminBan => {
            store.set_state(chat, user, ConversationState::Idle);
            let ghost mid = *store;
            if crate::is_admin(chat) {
                let t = trim(text);
                match parse_i64(&t) {
                    Some(id) => {
                        store.ban(id);
                        proof {
                            lemma_states_carry(*store, mid);
                        }
                        Effect::Respond(Intent::UserBanned(id))
                    },
                    None => Effect::Silent,
                }
            } else {
                Effect::Silent
            }
        },
        ConversationState::AwaitingAdminUnban => {
            store.set_state(chat, user, ConversationState::Idle);
            let ghost mid = *store;
            if crate::is_admin(chat) {
                let t = trim(text);
                match parse_i64(&t) {
                    Some(id) => {
                        store.unban(id);
                        proof {
                            lemma_states_carry(*store, mid);
                        }
                        Effect::Respond(Intent::UserUnbanned(id))
                    },
                    None => Effect::Silent,
                }
            } else {
                Effect::Silent
            }
        },
        ConversationState::AwaitingAdminGift => {
            store.set_state(chat, user, ConversationState::Idle);
            let ghost mid = *store;
            if crate::is_admin(chat) {
                let t = trim(text);
                match parse_i64(&t) {
                    Some(id) => {
                        store.grant_premium(id);
                        proof {
                            lemma_states_carry(*store, mid);
                        }
                        Effect::Respond(Intent::PremiumGranted(id))
                    },
                    None => Effect::Silent,
                }
            } else {
                Effect::Silent
            }
        },
        ConversationState::AwaitingAdminDirectMsg => {
            store.set_state(chat, user, ConversationState::Idle);
            if crate::is_admin(chat) {
                match split_once(text, 124) {
                    Some(parts) => {
                        proof {
                            let k = choose|i: int|
                                0 <= i < text@.len() && text@[i] == 124 && (forall|j: int|
                                    0 <= j < i ==> text@[j] != 124) && parts.0@
                                    == text@.subrange(0, i) && parts.1@ == text@.subrange(
                                    i + 1,
                                    text@.len() as int,
                                );
                            lemma_pipe_at_is(text@, k);
                        }
                        let idpart = trim(&parts.0);
                        match parse_i64(&idpart) {
                            Some(id) => Effect::DirectSend(id, parts.1),
                            None => Effect::Silent,
                        }
                    },
                    None => Effect::Silent,
                }
            } else {
                Effect::Silent
            }
        },
        ConversationState::AwaitingAdminAddGroup => {
            store.set_state(chat, user, ConversationState::Idle);
            let ghost mid = *store;
            if crate::is_admin(chat) {
                let t = trim(text);
                match parse_i64(&t) {
                    Some(id) => {
                        store.add_premium_group(id);
                        proof {
                            lemma_states_carry(*store, mid);
                        }
                        Effect::Respond(Intent::GroupAdded(id))
                    },
                    None => Effect::Silent,
                }
            } else {
                Effect::Silent
            }
        },
        ConversationState::AwaitingAdminRemoveGroup => {
            store.set_state(chat, user, ConversationState::Idle);
            let ghost mid = *store;
            if crate::is_admin(chat) {
                let t = trim(text);
                match parse_i64(&t) {
                    Some(id) => {
                        store.remove_premium_group(id);
                        proof {
                            lemma_states_carry(*store, mid);
                        }
                        Effect::Respond(Intent::GroupRemoved(id))
                    },
                    None => Effect::Silent,
                }
            } else {
                Effect::Silent
            }
        },
    }
}

/// `free_step_core` only reads the state table and the collections, never
/// the user registry, so it transfers to any store that matches on those.
#[verifier::rlimit(100)]
proof fn lemma_free_core_congr(
    pre: SessionStore,
    mid: SessionStore,
    post: SessionStore,
    chat: i64,
    user: u64,
    text: Seq<u8>,
    eff: Effect,
)
    requires
        mid.states@ == pre.states@,
        mid.portfolios@ == pre.portfolios@,
        mid.watchlists@ == pre.watchlists@,
        mid.banned@ == pre.banned@,
        mid.premium_users@ == pre.premium_users@,
        mid.premium_groups@ == pre.premium_groups@,
        free_step_core(mid, post, chat, user, text, eff),
    ensures
        free_step_core(pre, post, chat, user, text, eff),
{
    lemma_states_carry(mid, pre);
}

/// Handle one inbound text message for the session `(chat, user)`:
/// dispatch per the transition table, mutate the store accordingly, and
/// return the effect the caller must perform. A banned chat's message is
/// dropped whole.
pub fn handle_text(store: &mut SessionStore, chat: i64, user: u64, text: &Vec<u8>) -> (eff: Effect)
    requires
        old(store).wf(),
    ensures
        final(store).wf(),
        text_step_ok(*old(store), *final(store), chat, user, text@, eff),
{
    if store.is_banned(chat) && !crate::is_admin(chat) {
        return Effect::Silent;
    }
    store.register_user(chat);
    let cmd = parse_command(text);
    match cmd {
        Some(Command::Start) => {
            store.set_state(chat, user, ConversationState::Idle);
            Effect::Respond(Intent::Welcome)
        },
        Some(Command::Help) => {
            store.set_state(chat, user, ConversationState::Idle);
            Effect::Respond(Intent::Help)
        },
        Some(Command::Kripto) => {
            store.set_state(chat, user, ConversationState::AwaitingCrypto);
            Effect::Respond(Intent::PromptCrypto)
        },
        Some(Command::Saham) => {
            store.set_state(chat, user, ConversationState::AwaitingStock);
            Effect::Respond(Intent::PromptStock)
        },
        Some(Command::Solana) => {
            store.set_state(chat, user, ConversationState::AwaitingSolana);
            Effect::Respond(Intent::PromptSolana)
        },
        Some(Command::RealBuy) => {
            store.set_state(chat, user, ConversationState::AwaitingRealBuy);
            Effect::Respond(Intent::PromptRealBuy)
        },
        Some(Command::Sim) => {
            store.set_state(chat, user, ConversationState::Idle);
            Effect::Respond(Intent::SimMenu)
        },
        Some(Command::Panel) => {
            store.set_state(chat, user, ConversationState::Idle);
            if crate::is_admin(chat) {
                Effect::Respond(Intent::AdminOverview(store.stats()))
            } else {
                Effect::Respond(Intent::AccessDenied)
            }
        },
        None => {
            let ghost mid = *store;
            let eff = handle_free_text(store, chat, user, text);
            proof {
                lemma_free_core_congr(*old(store), mid, *final(store), chat, user, text@, eff);
            }
            eff
        },
    }
}

/// A portfolio with nothing but the initial cash grant: what the store
/// creates on a chat's first access.
pub open spec fn fresh_like(p: crate::portfolio::Portfolio) -> bool {
    &&& p.cash.num == crate::portfolio::INITIAL_CASH
    &&& p.cash.den == 1
    &&& p.holdings@.len() == 0
    &&& p.gains.num == 0
    &&& p.losses.num == 0
    &&& p.wf()
}

/// The chat currently holds the symbol (false without a portfolio).
pub open spec fn stored_has(s: SessionStore, chat: i64, sym: Seq<u8>) -> bool {
    match s.portfolio_of(chat) {
        Some(p) => crate::portfolio::has_sym(p.holdings@, sym),
        None => false,
    }
}

/// Execute the pending simulated trade, once the caller has fetched the
/// symbol's current price.
///
/// A buy needs a price first: a missing or zero price settles as
/// `QuoteUnavailable`. A sell checks the position first: an unheld symbol is
/// `NoPosition` whatever the price, and only then does a missing price give
/// `QuoteUnavailable`. Every rejection leaves the portfolios untouched.
/// Otherwise the chat's portfolio (fresh on a first buy) moves exactly as
/// the simulator's buy or sell contract says; no other chat and no other
/// collection changes.
pub fn settle_trade(
    store: &mut SessionStore,
    chat: i64,
    side: TradeSide,
    symbol: &Vec<u8>,
    price: Option<u64>,
) -> (r: Result<TradeReceipt, TradeError>)
    requires
        old(store).wf(),
    ensures
        final(store).wf(),
        final(store).states@ == old(store).states@,
        final(store).watchlists@ == old(store).watchlists@,
        final(store).users@ == old(store).users@,
        final(store).banned@ == old(store).banned@,
        final(store).premium_users@ == old(store).premium_users@,
        final(store).premium_groups@ == old(store).premium_groups@,
        forall|c: i64| c != chat ==> final(store).portfolio_of(c) == old(store).portfolio_of(c),
        match side {
            TradeSide::Buy => (match price {
                None => r == Result::<TradeReceipt, TradeError>::Err(TradeError::QuoteUnavailable)
                    && final(store).portfolios@ == old(store).portfolios@,
                Some(p) => if p == 0 {
                    r == Result::<TradeReceipt, TradeError>::Err(TradeError::QuoteUnavailable)
                        && final(store).portfolios@ == old(store).portfolios@
                } else {
                    &&& final(store).portfolio_of(chat) is Some
                    &&& (match old(store).portfolio_of(chat) {
                        Some(p0) => crate::portfolio::buy_post(
                            p0,
                            final(store).portfolio_of(chat)->Some_0,
                            symbol@,
                            p,
                            r,
                        ),
                        None => exists|p0: crate::portfolio::Portfolio|
                            fresh_like(p0) && #[trigger] crate::portfolio::buy_post(
                                p0,
                                final(store).portfolio_of(chat)->Some_0,
                                symbol@,
                                p,
                                r,
                            ),
                    })
                },
            }),
            TradeSide::Sell => if !stored_has(*old(store), chat, symbol@) {
                r == Result::<TradeReceipt, TradeError>::Err(TradeError::NoPosition)
                    && final(store).portfolios@ == old(store).portfolios@
            } else {
                match price {
                    None => r == Result::<TradeReceipt, TradeError>::Err(
                        TradeError::QuoteUnavailable,
                    ) && final(store).portfolios@ == old(store).portfolios@,
                    Some(p) => if p == 0 {
                        r == Result::<TradeReceipt, TradeError>::Err(TradeError::QuoteUnavailable)
                            && final(store).portfolios@ == old(store).portfolios@
                    } else {
                        &&& final(store).portfolio_of(chat) is Some
                        &&& old(store).portfolio_of(chat) is Some
                        &&& crate::portfolio::sell_post(
                            old(store).portfolio_of(chat)->Some_0,
                            final(store).portfolio_of(chat)->Some_0,
                            symbol@,
                            p,
                            r,
                        )
                    },
                }
            },
        },
{
    match side {
        TradeSide::Buy => {
            let p = match price {
                None => {
                    return Err(TradeError::QuoteUnavailable);
                },
                Some(p) => p,
            };
            if p == 0 {
                return Err(TradeError::QuoteUnavailable);
            }
            let ghost pre = *store;
            let mut pf = store.take_portfolio(chat);
            let ghost p0 = pf;
            let r = pf.buy(symbol, p);
            let ghost mid = *store;
            store.put_portfolio(chat, pf);
            proof {
                assert(final(store).portfolio_of(chat) == Some(pf));
                assert forall|c: i64| c != chat implies final(store).portfolio_of(c) == old(
                    store,
                ).portfolio_of(c) by {
                    assert(final(store).portfolio_of(c) == mid.portfolio_of(c));
                    assert(mid.portfolio_of(c) == pre.portfolio_of(c));
                }
                assert((*store).portfolio_of(chat)->Some_0 == pf);
                if pre.portfolio_of(chat) is None {
                    assert(fresh_like(p0));
                    assert(crate::portfolio::buy_post(
                        p0,
                        (*store).portfolio_of(chat)->Some_0,
                        symbol@,
                        p,
                        r,
                    ));
                } else {
                    assert(crate::portfolio::buy_post(
                        pre.portfolio_of(chat)->Some_0,
                        (*store).portfolio_of(chat)->Some_0,
                        symbol@,
                        p,
                        r,
                    ));
                }
            }
            r
        },
        TradeSide::Sell => {
            if !store.has_holding(chat, symbol) {
                return Err(TradeError::NoPosition);
            }
            let p = match price {
                None => {
                    return Err(TradeError::QuoteUnavailable);
                },
                Some(p) => p,
            };
            if p == 0 {
                return Err(TradeError::QuoteUnavailable);
            }
            let ghost pre = *store;
            let mut pf = store.take_portfolio(chat);
            let ghost p0 = pf;
            let r = pf.sell(symbol, p);
            let ghost mid = *store;
            store.put_portfolio(chat, pf);
            proof {
                assert(final(store).portfolio_of(chat) == Some(pf));
                assert forall|c: i64| c != chat implies final(store).portfolio_of(c) == old(
                    store,
                ).portfolio_of(c) by {
                    assert(final(store).portfolio_of(c) == mid.portfolio_of(c));
                    assert(mid.portfolio_of(c) == pre.portfolio_of(c));
                }
                assert((*store).portfolio_of(chat)->Some_0 == pf);
                assert(crate::portfolio::sell_post(
                    pre.portfolio_of(chat)->Some_0,
                    (*store).portfolio_of(chat)->Some_0,
                    symbol@,
                    p,
                    r,
                ));
            }
            r
        },
    }
}

/// A banned, non-administrator chat's text event changes nothing and causes
/// no lookup: the engine drops it before dispatch, as `handle_text`'s
/// contract requires.
pub proof fn lemma_banned_text_dropped(
    pre: SessionStore,
    post: SessionStore,
    chat: i64,
    user: u64,
    text: Seq<u8>,
    eff: Effect,
)
    requires
        text_step_ok(pre, post, chat, user, text, eff),
        pre.banned@.contains(chat),
        chat != ADMIN_CHAT_ID,
    ensures
        post == pre,
        eff == Effect::Silent,
{
}

/// Handling moved this session to `st` and touched nothing else at all,
/// the user registry included (button events register nobody).
pub open spec fn moved_only(
    pre: SessionStore,
    post: SessionStore,
    chat: i64,
    user: u64,
    st: ConversationState,
) -> bool {
    &&& core_state_moved(pre, post, chat, user, st)
    &&& post.users@ == pre.users@
}

/// The symbols of the chat's holdings, or empty without a portfolio.
pub open spec fn portfolio_syms(pre: SessionStore, chat: i64) -> Seq<Seq<u8>> {
    match pre.portfolio_of(chat) {
        Some(p) => p.holdings@.map_values(|h: crate::portfolio::Holding| h.symbol@),
        None => Seq::<Seq<u8>>::empty(),
    }
}

/// The overview the administrator panel renders, over the final store.
pub open spec fn overview_ok(post: SessionStore, eff: Effect) -> bool {
    eff matches Effect::Respond(Intent::AdminOverview(st)) && st.users == post.users@.len()
        && st.banned == post.banned@.len() && st.premium_users == post.premium_users@.len()
        && st.premium_groups == post.premium_groups@.len() && st.portfolios
        == post.portfolios@.len() && st.watchlists == post.watchlists@.len()
}

/// The transition table for the administrator-panel buttons: every one is a
/// silent no-op for anyone but the administrator.
pub open spec fn admin_button_step_ok(
    pre: SessionStore,
    post: SessionStore,
    chat: i64,
    user: u64,
    b: Button,
    eff: Effect,
) -> bool {
    if chat != ADMIN_CHAT_ID {
        post == pre && eff == Effect::Silent
    } else {
        match b {
            Button::AdminDashboard => post == pre && overview_ok(post, eff),
            Button::AdminUsers => post == pre && (eff matches Effect::Respond(
                Intent::AdminUsers(ids),
            ) && ids@ == (if pre.users@.len() <= 20 {
                pre.users@
            } else {
                pre.users@.subrange(0, 20)
            })),
            Button::AdminBroadcast => moved_only(
                pre,
                post,
                chat,
                user,
                ConversationState::AwaitingAdminBroadcast,
            ) && eff == Effect::Respond(Intent::PromptBroadcast),
            Button::AdminBan => moved_only(
                pre,
                post,
                chat,
                user,
                ConversationState::AwaitingAdminBan,
            ) && eff == Effect::Respond(Intent::PromptBanId),
            Button::AdminUnban => moved_only(
                pre,
                post,
                chat,
                user,
                ConversationState::AwaitingAdminUnban,
            ) && eff == Effect::Respond(Intent::PromptUnbanId),
            Button::AdminGiftPremium => moved_only(
                pre,
                post,
                chat,
                user,
                ConversationState::AwaitingAdminGift,
            ) && eff == Effect::Respond(Intent::PromptGiftId),
            Button::AdminDirectMsg => moved_only(
                pre,
                post,
                chat,
                user,
                ConversationState::AwaitingAdminDirectMsg,
            ) && eff == Effect::Respond(Intent::PromptDirectMsg),
            Button::AdminAddGroup => moved_only(
                pre,
                post,
                chat,
                user,
                ConversationState::AwaitingAdminAddGroup,
            ) && eff == Effect::Respond(Intent::PromptAddGroup),
            Button::AdminRemoveGroup => moved_only(
                pre,
                post,
                chat,
                user,
                ConversationState::AwaitingAdminRemoveGroup,
            ) && eff == Effect::Respond(Intent::PromptRemoveGroup),
            Button::AdminWallet => post == pre && eff == Effect::Respond(Intent::SystemStatus),
            Button::AdminAnalytics => post == pre && eff == Effect::Respond(Intent::SystemStatus),
            Button::AdminSystem => post == pre && eff == Effect::Respond(Intent::SystemStatus),
            _ => true,
        }
    }
}

/// The transition table for a button press, one clause per token.
pub open spec fn button_step_ok(
    pre: SessionStore,
    post: SessionStore,
    chat: i64,
    user: u64,
    token: Seq<u8>,
    eff: Effect,
) -> bool {
    if pre.banned@.contains(chat) && chat != ADMIN_CHAT_ID {
        post == pre && eff == Effect::Silent
    } else {
        match btn_spec(token) {
            Button::BackToMain => post == pre && eff == Effect::Respond(Intent::Welcome),
            Button::BackToPanel => post == pre && (if chat == ADMIN_CHAT_ID {
                overview_ok(post, eff)
            } else {
                eff == Effect::Respond(Intent::AccessDenied)
            }),
            Button::MenuCrypto => moved_only(
                pre,
                post,
                chat,
                user,
                ConversationState::AwaitingCrypto,
            ) && eff == Effect::Respond(Intent::PromptCrypto),
            Button::MenuSharia => moved_only(
                pre,
                post,
                chat,
                user,
                ConversationState::AwaitingStock,
            ) && eff == Effect::Respond(Intent::PromptStock),
            Button::MenuSolana => moved_only(
                pre,
                post,
                chat,
                user,
                ConversationState::AwaitingSolana,
            ) && eff == Effect::Respond(Intent::PromptSolana),
            Button::MenuSimMain => post == pre && eff == Effect::Respond(Intent::SimMenu),
            Button::MenuSentiment => post == pre && eff == Effect::FetchSentiment,
            Button::SentimentFng => post == pre && eff == Effect::FetchSentiment,
            Button::SentimentPulse => post == pre && eff == Effect::FetchPulse,
            Button::MenuWatchlist => post == pre && (eff matches Effect::Respond(
                Intent::WatchlistShow(items),
            ) && items.deep_view() == pre.watchlist_of(chat)),
            Button::WatchlistAdd => moved_only(
                pre,
                post,
                chat,
                user,
                ConversationState::AwaitingAddWatchlist,
            ) && eff == Effect::Respond(Intent::PromptWatchlistAdd),
            Button::WatchlistClear => ({
                &&& post.watchlist_of(chat) == Seq::<Seq<u8>>::empty()
                &&& (forall|c: i64| c != chat ==> post.watchlist_of(c) == pre.watchlist_of(c))
                &&& post.states@ == pre.states@
                &&& post.portfolios@ == pre.portfolios@
                &&& post.users@ == pre.users@
                &&& post.banned@ == pre.banned@
                &&& post.premium_users@ == pre.premium_users@
                &&& post.premium_groups@ == pre.premium_groups@
                &&& eff == Effect::Respond(Intent::WatchlistCleared)
            }),
            Button::WatchlistCheck => post == pre && (if pre.watchlist_of(chat).len() == 0 {
                eff matches Effect::Respond(Intent::WatchlistShow(items)) && items@.len() == 0
            } else {
                eff matches Effect::FetchWatchlistPrices(items) && items.deep_view()
                    == pre.watchlist_of(chat)
            }),
            Button::MenuSolanaReal => moved_only(
                pre,
                post,
                chat,
                user,
                ConversationState::AwaitingRealBuy,
            ) && eff == Effect::Respond(Intent::PromptRealBuy),
            Button::MenuHelp => post == pre && eff == Effect::Respond(Intent::Help),
            Button::MenuBuy => moved_only(
                pre,
                post,
                chat,
                user,
                ConversationState::AwaitingBuyTicker,
            ) && eff == Effect::Respond(Intent::PromptBuy),
            Button::MenuSell => moved_only(
                pre,
                post,
                chat,
                user,
                ConversationState::AwaitingSellTicker,
            ) && eff == Effect::Respond(Intent::PromptSell),
            Button::MenuPortfolio => post == pre && (eff matches Effect::FetchPortfolioPrices(
                syms,
            ) && syms.deep_view() == portfolio_syms(pre, chat)),
            Button::Unknown => post == pre && eff == Effect::Respond(Intent::FeatureActive),
            _ => admin_button_step_ok(pre, post, chat, user, btn_spec(token), eff),
        }
    }
}

/// The administrator-panel buttons: prompts for the admin follow-up texts,
/// the user listing, and the status panels. Silently ignored for anyone
/// but the administrator.
fn handle_admin_button(store: &mut SessionStore, chat: i64, user: u64, b: Button) -> (eff: Effect)
    requires
        old(store).wf(),
    ensures
        final(store).wf(),
        admin_button_step_ok(*old(store), *final(store), chat, user, b, eff),
{
    if !crate::is_admin(chat) {
        return Effect::Silent;
    }
    match b {
        Button::AdminDashboard => Effect::Respond(Intent::AdminOverview(store.stats())),
        Button::AdminUsers => {
            let all = store.all_user_ids();
            let mut ids: Vec<i64> = Vec::new();
            let mut i: usize = 0;
            let cap = if all.len() > 20 {
                20
            } else {
                all.len()
            };
            while i < cap
                invariant
                    0 <= i <= cap,
                    cap <= all@.len(),
                    ids@ == all@.subrange(0, i as int),
                decreases cap - i,
            {
                let id = all[i];
                ids.push(id);
                proof {
                    assert(ids@ =~= all@.subrange(0, i + 1 as int));
                }
                i = i + 1;
            }
            proof {
                if all@.len() <= 20 {
                    assert(ids@ =~= all@);
                }
            }
            Effect::Respond(Intent::AdminUsers(ids))
        },
        Button::AdminBroadcast => {
            store.set_state(chat, user, ConversationState::AwaitingAdminBroadcast);
            Effect::Respond(Intent::PromptBroadcast)
        },
        Button::AdminBan => {
            store.set_state(chat, user, ConversationState::AwaitingAdminBan);
            Effect::Respond(Intent::PromptBanId)
        },
        Button::AdminUnban => {
            store.set_state(chat, user, ConversationState::AwaitingAdminUnban);
            Effect::Respond(Intent::PromptUnbanId)
        },
        Button::AdminGiftPremium => {
            store.set_state(chat, user, ConversationState::AwaitingAdminGift);
            Effect::Respond(Intent::PromptGiftId)
        },
        Button::AdminDirectMsg => {
            store.set_state(chat, user, ConversationState::AwaitingAdminDirectMsg);
            Effect::Respond(Intent::PromptDirectMsg)
        },
        Button::AdminAddGroup => {
            store.set_state(chat, user, ConversationState::AwaitingAdminAddGroup);
            Effect::Respond(Intent::PromptAddGroup)
        },
        Button::AdminRemoveGroup => {
            store.set_state(chat, user, ConversationState::AwaitingAdminRemoveGroup);
            Effect::Respond(Intent::PromptRemoveGroup)
        },
        Button::AdminWallet => Effect::Respond(Intent::SystemStatus),
        Button::AdminAnalytics => Effect::Respond(Intent::SystemStatus),
        Button::AdminSystem => Effect::Respond(Intent::SystemStatus),
        _ => Effect::Silent,
    }
}

/// Handle one button press for the session `(chat, user)`: dispatch per the
/// button table, mutate the store accordingly, and return the effect the
/// caller must perform. A banned chat's press is dropped whole.
#[verifier::rlimit(100)]
pub fn handle_button(store: &mut SessionStore, chat: i64, user: u64, token: &Vec<u8>) -> (eff: Effect)
    requires
        old(store).wf(),
    ensures
        final(store).wf(),
        button_step_ok(*old(store), *final(store), chat, user, token@, eff),
{
    if store.is_banned(chat) && !crate::is_admin(chat) {
        return Effect::Silent;
    }
    let b = parse_button(token);
    match b {
        Button::BackToMain => Effect::Respond(Intent::Welcome),
        Button::BackToPanel => {
            if crate::is_admin(chat) {
                Effect::Respond(Intent::AdminOverview(store.stats()))
            } else {
                Effect::Respond(Intent::AccessDenied)
            }
        },
        Button::MenuCrypto => {
            store.set_state(chat, user, ConversationState::AwaitingCrypto);
            Effect::Respond(Intent::PromptCrypto)
        },
        Button::MenuSharia => {
            store.set_state(chat, user, ConversationState::AwaitingStock);
            Effect::Respond(Intent::PromptStock)
        },
        Button::MenuSolana => {
            store.set_state(chat, user, ConversationState::AwaitingSolana);
            Effect::Respond(Intent::PromptSolana)
        },
        Button::MenuSimMain => Effect::Respond(Intent::SimMenu),
        Button::MenuSentiment => Effect::FetchSentiment,
        Button::SentimentFng => Effect::FetchSentiment,
        Button::SentimentPulse => Effect::FetchPulse,
        Button::MenuWatchlist => {
            let items = store.watchlist_items(chat);
            Effect::Respond(Intent::WatchlistShow(items))
        },
        Button::WatchlistAdd => {
            store.set_state(chat, user, ConversationState::AwaitingAddWatchlist);
            Effect::Respond(Intent::PromptWatchlistAdd)
        },
        Button::WatchlistClear => {
            store.watchlist_clear(chat);
            Effect::Respond(Intent::WatchlistCleared)
        },
        Button::WatchlistCheck => {
            let items = store.watchlist_items(chat);
            if items.len() == 0 {
                proof {
                    assert(items.deep_view().len() == 0);
                }
                Effect::Respond(Intent::WatchlistShow(items))
            } else {
                proof {
                    assert(items.deep_view().len() > 0);
                }
                Effect::FetchWatchlistPrices(items)
            }
        },
        Button::MenuSolanaReal => {
            store.set_state(chat, user, ConversationState::AwaitingRealBuy);
            Effect::Respond(Intent::PromptRealBuy)
        },
        Button::MenuHelp => Effect::Respond(Intent::Help),
        Button::MenuBuy => {
            store.set_state(chat, user, ConversationState::AwaitingBuyTicker);
            Effect::Respond(Intent::PromptBuy)
        },
        Button::MenuSell => {
            store.set_state(chat, user, ConversationState::AwaitingSellTicker);
            Effect::Respond(Intent::PromptSell)
        },
        Button::MenuPortfolio => {
            let syms = store.holding_symbols(chat);
            Effect::FetchPortfolioPrices(syms)
        },
        Button::Unknown => Effect::Respond(Intent::FeatureActive),
        _ => handle_admin_button(store, chat, user, b),
    }
}

} // verus!
