use lubix::engine::{handle_button, handle_text, settle_trade, Effect, Intent, QuoteKind,
    TradeSide};
use lubix::portfolio::TradeError;
use lubix::store::{ConversationState, SessionStore};
use lubix::ADMIN_CHAT_ID;

const CHAT: i64 = 777;
const USER: u64 = 42;

#[test]
fn kripto_command_then_reply_fetches_and_resets() {
    let mut store = SessionStore::new();
    let eff = handle_text(&mut store, CHAT, USER, &b"/kripto".to_vec());
    assert!(matches!(eff, Effect::Respond(Intent::PromptCrypto)));
    assert_eq!(store.get_state(CHAT, USER), ConversationState::AwaitingCrypto);

    let eff = handle_text(&mut store, CHAT, USER, &b"btc".to_vec());
    match eff {
        Effect::FetchQuote(QuoteKind::Crypto, q) => assert_eq!(q, b"BTC".to_vec()),
        _ => panic!("expected a crypto lookup"),
    }
    assert_eq!(store.get_state(CHAT, USER), ConversationState::Idle);
}

#[test]
fn panel_from_non_admin_is_denied_without_transition() {
    let mut store = SessionStore::new();
    let eff = handle_text(&mut store, CHAT, USER, &b"/panel".to_vec());
    assert!(matches!(eff, Effect::Respond(Intent::AccessDenied)));
    assert_eq!(store.get_state(CHAT, USER), ConversationState::Idle);
}

#[test]
fn admin_panel_ban_flow_bans_and_drops_the_banned_chat() {
    let mut store = SessionStore::new();
    let banned_chat: i64 = 12345;
    // The banned chat is seen once first.
    handle_text(&mut store, banned_chat, 9, &b"/start".to_vec());

    let eff = handle_text(&mut store, ADMIN_CHAT_ID, USER, &b"/panel".to_vec());
    assert!(matches!(eff, Effect::Respond(Intent::AdminOverview(_))));

    let eff = handle_button(&mut store, ADMIN_CHAT_ID, USER, &b"admin_ban".to_vec());
    assert!(matches!(eff, Effect::Respond(Intent::PromptBanId)));
    assert_eq!(
        store.get_state(ADMIN_CHAT_ID, USER),
        ConversationState::AwaitingAdminBan
    );

    let eff = handle_text(&mut store, ADMIN_CHAT_ID, USER, &b"12345".to_vec());
    match eff {
        Effect::Respond(Intent::UserBanned(id)) => assert_eq!(id, banned_chat),
        _ => panic!("expected a ban confirmation"),
    }
    assert!(store.is_banned(banned_chat));

    // A subsequent event from the banned chat is dropped whole.
    let eff = handle_text(&mut store, banned_chat, 9, &b"/kripto".to_vec());
    assert!(matches!(eff, Effect::Silent));
    assert_eq!(store.get_state(banned_chat, 9), ConversationState::Idle);
}

#[test]
fn banned_chat_in_awaiting_crypto_changes_nothing() {
    let mut store = SessionStore::new();
    handle_text(&mut store, CHAT, USER, &b"/kripto".to_vec());
    assert_eq!(store.get_state(CHAT, USER), ConversationState::AwaitingCrypto);

    // The administrator bans the chat mid-conversation.
    handle_button(&mut store, ADMIN_CHAT_ID, USER, &b"admin_ban".to_vec());
    handle_text(&mut store, ADMIN_CHAT_ID, USER, &b"777".to_vec());

    // The banned chat's free text is dropped: no lookup, no state change.
    let eff = handle_text(&mut store, CHAT, USER, &b"btc".to_vec());
    assert!(matches!(eff, Effect::Silent));
    assert_eq!(store.get_state(CHAT, USER), ConversationState::AwaitingCrypto);
}

#[test]
fn unban_lets_the_chat_speak_again() {
    let mut store = SessionStore::new();
    handle_button(&mut store, ADMIN_CHAT_ID, USER, &b"admin_ban".to_vec());
    handle_text(&mut store, ADMIN_CHAT_ID, USER, &b"777".to_vec());
    assert!(store.is_banned(CHAT));
    handle_button(&mut store, ADMIN_CHAT_ID, USER, &b"admin_unban".to_vec());
    let eff = handle_text(&mut store, ADMIN_CHAT_ID, USER, &b"777".to_vec());
    assert!(matches!(eff, Effect::Respond(Intent::UserUnbanned(777))));
    assert!(!store.is_banned(CHAT));
    let eff = handle_text(&mut store, CHAT, USER, &b"/start".to_vec());
    assert!(matches!(eff, Effect::Respond(Intent::Welcome)));
}

#[test]
fn watchlist_add_is_append_only_and_order_preserving() {
    let mut store = SessionStore::new();
    handle_button(&mut store, CHAT, USER, &b"watchlist_add".to_vec());
    let eff = handle_text(&mut store, CHAT, USER, &b"btc".to_vec());
    match eff {
        Effect::Respond(Intent::WatchlistAdded(t)) => assert_eq!(t, b"BTC".to_vec()),
        _ => panic!("expected a watchlist confirmation"),
    }
    handle_button(&mut store, CHAT, USER, &b"watchlist_add".to_vec());
    handle_text(&mut store, CHAT, USER, &b" eth ".to_vec());
    let items = store.watchlist_items(CHAT);
    assert_eq!(items, vec![b"BTC".to_vec(), b"ETH".to_vec()]);

    // Duplicates are permitted: it is a sequence, not a set.
    handle_button(&mut store, CHAT, USER, &b"watchlist_add".to_vec());
    handle_text(&mut store, CHAT, USER, &b"BTC".to_vec());
    let items = store.watchlist_items(CHAT);
    assert_eq!(items, vec![b"BTC".to_vec(), b"ETH".to_vec(), b"BTC".to_vec()]);

    handle_button(&mut store, CHAT, USER, &b"watchlist_clear".to_vec());
    assert_eq!(store.watchlist_items(CHAT).len(), 0);
}

#[test]
fn buy_flow_goes_through_price_fetch_and_settles() {
    let mut store = SessionStore::new();
    handle_button(&mut store, CHAT, USER, &b"menu_buy".to_vec());
    assert_eq!(store.get_state(CHAT, USER), ConversationState::AwaitingBuyTicker);
    let eff = handle_text(&mut store, CHAT, USER, &b"btc".to_vec());
    let sym = match eff {
        Effect::FetchTradePrice(TradeSide::Buy, sym) => sym,
        _ => panic!("expected a price fetch for the buy"),
    };
    assert_eq!(sym, b"BTC".to_vec());
    let r = settle_trade(&mut store, CHAT, TradeSide::Buy, &sym, Some(50_000_000_000));
    assert!(r.is_ok());
    let symbols = store.holding_symbols(CHAT);
    assert_eq!(symbols, vec![b"BTC".to_vec()]);
}

#[test]
fn trade_without_a_price_is_quote_unavailable() {
    let mut store = SessionStore::new();
    let r = settle_trade(&mut store, CHAT, TradeSide::Buy, &b"BTC".to_vec(), None);
    assert!(matches!(r, Err(TradeError::QuoteUnavailable)));
    // A sell checks the position before the price: an unheld symbol is
    // NoPosition even when no price could be fetched.
    let r = settle_trade(&mut store, CHAT, TradeSide::Sell, &b"BTC".to_vec(), None);
    assert!(matches!(r, Err(TradeError::NoPosition)));
    // With a position but no obtainable price, the sell is QuoteUnavailable.
    settle_trade(&mut store, CHAT, TradeSide::Buy, &b"BTC".to_vec(), Some(50_000_000_000))
        .expect("funded buy");
    let r = settle_trade(&mut store, CHAT, TradeSide::Sell, &b"BTC".to_vec(), Some(0));
    assert!(matches!(r, Err(TradeError::QuoteUnavailable)));
}

#[test]
fn admin_broadcast_snapshots_the_registry_in_order() {
    let mut store = SessionStore::new();
    handle_text(&mut store, 1, 1, &b"/start".to_vec());
    handle_text(&mut store, 2, 2, &b"/start".to_vec());
    handle_button(&mut store, ADMIN_CHAT_ID, USER, &b"admin_broadcast".to_vec());
    let eff = handle_text(&mut store, ADMIN_CHAT_ID, USER, &b"hello all".to_vec());
    match eff {
        Effect::Broadcast(ids, msg) => {
            assert_eq!(ids, vec![1, 2, ADMIN_CHAT_ID]);
            assert_eq!(msg, b"hello all".to_vec());
        },
        _ => panic!("expected a broadcast effect"),
    }
}

#[test]
fn admin_direct_message_splits_id_and_payload() {
    let mut store = SessionStore::new();
    handle_button(&mut store, ADMIN_CHAT_ID, USER, &b"admin_dm".to_vec());
    let eff = handle_text(&mut store, ADMIN_CHAT_ID, USER, &b"555|hi there".to_vec());
    match eff {
        Effect::DirectSend(id, msg) => {
            assert_eq!(id, 555);
            assert_eq!(msg, b"hi there".to_vec());
        },
        _ => panic!("expected a direct send"),
    }
    // A malformed payload is a silent no-op.
    handle_button(&mut store, ADMIN_CHAT_ID, USER, &b"admin_dm".to_vec());
    let eff = handle_text(&mut store, ADMIN_CHAT_ID, USER, &b"no separator".to_vec());
    assert!(matches!(eff, Effect::Silent));
}

#[test]
fn admin_states_are_silent_for_non_admins() {
    let mut store = SessionStore::new();
    // A non-admin can never reach an admin state through the engine, so put
    // the session there directly to check the guard.
    store.set_state(CHAT, USER, ConversationState::AwaitingAdminBan);
    let eff = handle_text(&mut store, CHAT, USER, &b"12345".to_vec());
    assert!(matches!(eff, Effect::Silent));
    assert!(!store.is_banned(12345));
    assert_eq!(store.get_state(CHAT, USER), ConversationState::Idle);
}

#[test]
fn idle_free_text_gets_a_hint() {
    let mut store = SessionStore::new();
    let eff = handle_text(&mut store, CHAT, USER, &b"what is this".to_vec());
    assert!(matches!(eff, Effect::Respond(Intent::Hint)));
}

#[test]
fn unknown_button_is_acknowledged() {
    let mut store = SessionStore::new();
    let eff = handle_button(&mut store, CHAT, USER, &b"mystery_token".to_vec());
    assert!(matches!(eff, Effect::Respond(Intent::FeatureActive)));
}

#[test]
fn sim_and_help_commands_do_not_transition() {
    let mut store = SessionStore::new();
    let eff = handle_text(&mut store, CHAT, USER, &b"/sim".to_vec());
    assert!(matches!(eff, Effect::Respond(Intent::SimMenu)));
    let eff = handle_text(&mut store, CHAT, USER, &b"/help".to_vec());
    assert!(matches!(eff, Effect::Respond(Intent::Help)));
    assert_eq!(store.get_state(CHAT, USER), ConversationState::Idle);
}

#[test]
fn gift_and_group_admin_flows_update_their_sets() {
    let mut store = SessionStore::new();
    handle_button(&mut store, ADMIN_CHAT_ID, USER, &b"admin_gift_premium".to_vec());
    let eff = handle_text(&mut store, ADMIN_CHAT_ID, USER, &b"99".to_vec());
    assert!(matches!(eff, Effect::Respond(Intent::PremiumGranted(99))));
    handle_button(&mut store, ADMIN_CHAT_ID, USER, &b"admin_add_group".to_vec());
    let eff = handle_text(&mut store, ADMIN_CHAT_ID, USER, &b"-100".to_vec());
    assert!(matches!(eff, Effect::Respond(Intent::GroupAdded(-100))));
    handle_button(&mut store, ADMIN_CHAT_ID, USER, &b"admin_rem_group".to_vec());
    let eff = handle_text(&mut store, ADMIN_CHAT_ID, USER, &b"-100".to_vec());
    assert!(matches!(eff, Effect::Respond(Intent::GroupRemoved(-100))));
}

#[test]
fn fresh_chat_valuation_is_the_initial_grant() {
    let store = SessionStore::new();
    let s = store.valuation_for(CHAT, &vec![]);
    assert_eq!(s.positions.len(), 0);
    let total = s.total.expect("total fits");
    assert_eq!(total.num, 10_000_000_000);
    assert_eq!(total.den, 1);
}
