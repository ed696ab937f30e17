use playground::turnstile::{next_state, parse_command, state_to_str, Command, COIN, LOCKED, PUSH, UNLOCKED};

#[test]
fn on_push_lock_if_locked() {
    assert_eq!(next_state(LOCKED, PUSH), LOCKED);
}

#[test]
fn on_push_lock_if_unlocked() {
    assert_eq!(next_state(UNLOCKED, PUSH), LOCKED);
}

#[test]
fn on_coin_unlock_if_locked() {
    assert_eq!(next_state(LOCKED, COIN), UNLOCKED);
}

#[test]
fn on_coin_unlock_if_unlocked() {
    assert_eq!(next_state(UNLOCKED, COIN), UNLOCKED);
}

#[test]
fn state_names() {
    assert_eq!(state_to_str(LOCKED), "locked");
    assert_eq!(state_to_str(UNLOCKED), "unlocked");
    assert_eq!(state_to_str(7), "unknown");
}

#[test]
fn commands_are_read_from_lines() {
    assert_eq!(parse_command("c"), Command::Event(COIN));
    assert_eq!(parse_command("coin"), Command::Event(COIN));
    assert_eq!(parse_command("p"), Command::Event(PUSH));
    assert_eq!(parse_command("push"), Command::Event(PUSH));
    assert_eq!(parse_command("q"), Command::Quit);
    assert_eq!(parse_command("quit"), Command::Quit);
    assert_eq!(parse_command("coins"), Command::Unknown);
    assert_eq!(parse_command(""), Command::Unknown);
}
