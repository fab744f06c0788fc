use mavrik::config::{TcpListenerOptions, DEFAULT_PORT};
use mavrik::{Mavrik, MavrikOptions, DEFAULT_THREAD_COUNT};

#[test]
fn absent_options_fall_back_to_the_fixed_defaults() {
    let options = MavrikOptions { host: None, port: None, rb_thread_count: None, signal_parent_ready: None };
    assert_eq!(options.host(), "127.0.0.1");
    assert_eq!(options.port(), 3001);
    assert_eq!(options.port(), DEFAULT_PORT);
    assert_eq!(options.rb_thread_count(), 4);
    assert_eq!(options.rb_thread_count(), DEFAULT_THREAD_COUNT);
    assert!(!options.signal_parent_ready());
}

#[test]
fn present_options_win_over_the_defaults() {
    let options = MavrikOptions {
        host: Some("0.0.0.0".to_string()),
        port: Some(3009),
        rb_thread_count: Some(2),
        signal_parent_ready: Some(true),
    };
    assert_eq!(options.host(), "0.0.0.0");
    assert_eq!(options.port(), 3009);
    assert_eq!(options.rb_thread_count(), 2);
    assert!(options.signal_parent_ready());
    let mavrik = Mavrik::new(options);
    assert_eq!(mavrik.options.port, Some(3009));
    let listener = TcpListenerOptions { host: mavrik.options.host(), port: mavrik.options.port(), signal_parent_ready: true };
    assert_eq!(listener.port, 3009);
}
