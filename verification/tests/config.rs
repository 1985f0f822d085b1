use aether::config::{token_level, Config};
use aether::drivers::input::ps2_keyboard::{apply_key, key_press, Key, KeyDecoder};
use aether::interrupts::handlers::{heartbeat_due, InputBuffer, KeyEffect};
use aether::log::level::{should_log, Level};

#[test]
fn default_config_logs_info() {
    let c: Config = Default::default();
    assert_eq!(c.log_level, Level::Info);
}

#[test]
fn set_log_level_replaces_level() {
    let mut c: Config = Default::default();
    c.set_log_level(Level::Error);
    assert_eq!(c.log_level, Level::Error);
}

#[test]
fn cmdline_selects_log_level() {
    assert_eq!(Config::from_cmdline("").log_level, Level::Info);
    assert_eq!(Config::from_cmdline("log_level=debug").log_level, Level::Debug);
    assert_eq!(Config::from_cmdline("quiet log_level=warn splash").log_level, Level::Warn);
    assert_eq!(Config::from_cmdline("log_level=error log_level=info").log_level, Level::Info);
    assert_eq!(Config::from_cmdline("  log_level=error\t").log_level, Level::Error);
    assert_eq!(Config::from_cmdline("log_level=verbose").log_level, Level::Info);
    assert_eq!(Config::from_cmdline("log_level=warn log_level=loud").log_level, Level::Warn);
    assert_eq!(Config::from_cmdline("xlog_level=debug").log_level, Level::Info);
    assert_eq!(Config::from_cmdline("log_level=debugx").log_level, Level::Info);
    assert_eq!(Config::from_cmdline("log_level=").log_level, Level::Info);
    assert_eq!(Config::from_cmdline("a\u{3000}log_level=debug").log_level, Level::Debug);
    assert_eq!(Config::from_cmdline("log_level=DEBUG").log_level, Level::Info);
}

#[test]
fn token_levels() {
    let t: Vec<char> = "log_level=warn".chars().collect();
    assert_eq!(token_level(&t), Some(Level::Warn));
    let t: Vec<char> = "log_level".chars().collect();
    assert_eq!(token_level(&t), None);
}

#[test]
fn log_filter_keeps_levels_at_or_above_threshold() {
    assert!(should_log(Level::Error, Level::Info));
    assert!(should_log(Level::Info, Level::Info));
    assert!(!should_log(Level::Debug, Level::Info));
    assert!(should_log(Level::Debug, Level::Debug));
    assert!(!should_log(Level::Warn, Level::Error));
    assert_eq!(Level::Warn.as_str(), "WARN");
}

#[test]
fn heartbeat_every_thousand_ticks() {
    assert!(heartbeat_due(0));
    assert!(heartbeat_due(3000));
    assert!(!heartbeat_due(999));
}

#[test]
fn line_editing() {
    let mut line = InputBuffer::new();
    assert_eq!(line.handle_char('\u{8}'), KeyEffect { echo: false, submit: false });
    assert_eq!(line.handle_char('l'), KeyEffect { echo: true, submit: false });
    assert_eq!(line.handle_char('s'), KeyEffect { echo: true, submit: false });
    assert_eq!(line.as_chars(), &['l', 's']);
    assert_eq!(line.handle_char('\u{8}'), KeyEffect { echo: true, submit: false });
    assert_eq!(line.as_chars(), &['l']);
    assert_eq!(line.handle_char('\n'), KeyEffect { echo: true, submit: true });
    // The submitted line stays until the command is taken.
    assert_eq!(line.as_chars(), &['l']);
    assert_eq!(line.take_line(), vec!['l']);
    assert!(line.as_chars().is_empty());
    assert!(line.take_line().is_empty());
}


#[test]
fn key_presses_edit_the_line() {
    let mut decoder = KeyDecoder::new();
    let mut line = InputBuffer::new();
    // 'A' key pressed (set 1 make code 0x1E), then released (0x9E).
    let (key, effect) = key_press(&mut decoder, &mut line, 0x1E);
    assert_eq!(key, Some(Key::Unicode('a')));
    assert_eq!(effect, Some(KeyEffect { echo: true, submit: false }));
    assert_eq!(line.as_chars(), &['a']);
    assert_eq!(key_press(&mut decoder, &mut line, 0x9E), (None, None));
    // Left shift is a key without a character: the line is unchanged.
    assert_eq!(key_press(&mut decoder, &mut line, 0x2A), (Some(Key::Raw), None));
    assert_eq!(line.as_chars(), &['a']);
    // With shift held, 'B' gives an upper-case letter.
    let (key, _) = key_press(&mut decoder, &mut line, 0x30);
    assert_eq!(key, Some(Key::Unicode('B')));
    assert_eq!(line.as_chars(), &['a', 'B']);
    assert_eq!(key_press(&mut decoder, &mut line, 0xAA), (None, None));
    // Backspace erases the last character and is echoed.
    let (key, effect) = key_press(&mut decoder, &mut line, 0x0E);
    assert_eq!(key, Some(Key::Unicode('\u{8}')));
    assert_eq!(effect, Some(KeyEffect { echo: true, submit: false }));
    assert_eq!(line.as_chars(), &['a']);
    // Enter submits the line, which is kept for the command.
    let (key, effect) = key_press(&mut decoder, &mut line, 0x1C);
    assert_eq!(key, Some(Key::Unicode('\n')));
    assert_eq!(effect, Some(KeyEffect { echo: true, submit: true }));
    assert_eq!(line.take_line(), vec!['a']);
    // A stray release byte decodes to nothing and leaves the line alone.
    assert_eq!(key_press(&mut decoder, &mut line, 0x9C), (None, None));
    assert!(line.as_chars().is_empty());
}

#[test]
fn decoded_keys_apply_to_the_line() {
    let mut line = InputBuffer::new();
    assert_eq!(apply_key(&mut line, Some(Key::Unicode('x'))), Some(KeyEffect { echo: true, submit: false }));
    assert_eq!(apply_key(&mut line, Some(Key::Raw)), None);
    assert_eq!(apply_key(&mut line, None), None);
    assert_eq!(line.as_chars(), &['x']);
}

#[test]
fn decoder_feeds_each_byte() {
    // The same byte decodes differently with the decoder's history: a
    // break code decodes to nothing, the make code to a character.
    let mut decoder = KeyDecoder::new();
    assert_eq!(decoder.decode(0x9E), None);
    assert_eq!(decoder.decode(0x1E), Some(Key::Unicode('a')));
    assert_eq!(decoder.decode(0x2A), Some(Key::Raw));
    assert_eq!(decoder.decode(0x1E), Some(Key::Unicode('A')));
}
