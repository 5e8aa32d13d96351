use argue::config::{Config, EndpointConfig};
use argue::messenger::BroadcastMessenger;
use argue::openai::{OpenAiRequest, ResponseFormat, Role};
use argue::registry::AppState;
use argue::session::Recipient;

#[test]
fn players_get_fresh_ids() {
    let mut m = BroadcastMessenger::new();
    assert_eq!(m.add_player(), 0);
    assert_eq!(m.add_player(), 1);
    m.remove_player(0);
    assert_eq!(m.add_player(), 2);
    assert_eq!(m.recipients(Recipient::All), vec![1, 2]);
}

#[test]
fn replies_skip_departed_players() {
    let mut m = BroadcastMessenger::new();
    let a = m.add_player();
    let b = m.add_player();
    assert_eq!(m.recipients(Recipient::Player(a)), vec![a]);
    m.remove_player(a);
    assert!(m.recipients(Recipient::Player(a)).is_empty());
    assert_eq!(m.recipients(Recipient::Player(b)), vec![b]);
    m.remove_player(a);
    assert_eq!(m.recipients(Recipient::All), vec![b]);
}

#[test]
fn one_game_per_topic() {
    let mut reg: AppState<u32> = AppState::new();
    assert_eq!(*reg.get_or_create_game_state("topic".to_string(), 1), 1);
    assert_eq!(*reg.get_or_create_game_state("other".to_string(), 2), 2);
    assert_eq!(*reg.get_or_create_game_state("topic".to_string(), 3), 1);
}

#[test]
fn request_builder_keeps_messages_in_order() {
    let r = OpenAiRequest::new("gpt-4o")
        .append_message(Role::System, "be brief".to_string())
        .append_message(Role::User, "is water wet?".to_string())
        .response_format(Some(ResponseFormat::Text));
    assert_eq!(r.model, "gpt-4o");
    assert_eq!(r.messages.len(), 2);
    assert_eq!(r.messages[0].role, Role::System);
    assert_eq!(r.messages[1].content, "is water wet?");
    assert_eq!(r.response_format, Some(ResponseFormat::Text));
}

#[test]
fn config_defaults() {
    let c = Config::default();
    assert_eq!(c.address, "0.0.0.0:3000");
    assert_eq!(c.serve_dir, "argue-react/dist");
    assert!(c.openai.disabled);
    let e = EndpointConfig::default();
    assert!(e.token.is_empty());
    assert!(e.endpoint.is_empty());
    assert_eq!(e.rate_limit, Some(0));
}
