use lib::apps::shell::{Outcome, Request, Shell, ShellEffects};
use lib::apps::terminal::Terminal;
use lib::apps::AppResponse;
use lib::drivers::rtc::DateTime;
use lib::drivers::speaker::Step;
use lib::fs::FileSystem;
use lib::gfx::palette;
use lib::input::{Key, KeyEvent, Modifiers};

fn texts(outcome: Outcome) -> Vec<String> {
    match outcome {
        Outcome::Lines(lines) => lines.into_iter().map(|l| l.text).collect(),
        Outcome::Machine(_) => panic!("expected lines"),
    }
}

fn run(shell: &mut Shell, fs: &mut FileSystem, input: &str) -> (Outcome, ShellEffects) {
    let mut effects = ShellEffects::new();
    let outcome = shell.execute(input, &mut effects, fs);
    (outcome, effects)
}

#[test]
fn echo_prints_the_rest_of_the_line() {
    let mut shell = Shell::new();
    let mut fs = FileSystem::new();
    let (out, _) = run(&mut shell, &mut fs, "  echo hello world  ");
    match out {
        Outcome::Lines(lines) => {
            assert_eq!(lines.len(), 1);
            assert_eq!(lines[0].text, "hello world");
            assert_eq!(lines[0].color, palette::TEXT);
        }
        Outcome::Machine(_) => panic!("echo needs no machine"),
    }
    assert_eq!(shell.nonce, 1);
    let (out, _) = run(&mut shell, &mut fs, "   ");
    assert!(texts(out).is_empty());
    assert_eq!(shell.nonce, 1);
}

#[test]
fn help_lists_every_command() {
    let mut shell = Shell::new();
    let mut fs = FileSystem::new();
    let (out, _) = run(&mut shell, &mut fs, "help");
    let lines = texts(out);
    assert_eq!(lines.len(), 25);
    assert_eq!(lines[0], "commands");
    assert_eq!(lines[1], "  help                  this list");
    assert_eq!(lines[22], "  exit                  close this terminal");
}

#[test]
fn parenthesised_input_is_evaluated() {
    let mut shell = Shell::new();
    let mut fs = FileSystem::new();
    let (out, _) = run(&mut shell, &mut fs, "(+ 1 2)");
    assert_eq!(texts(out), vec!["=> 3".to_string()]);
    let (out, _) = run(&mut shell, &mut fs, "(print \"hi\")");
    assert_eq!(texts(out), vec!["hi".to_string()]);
    let (out, effects) = run(&mut shell, &mut fs, "(car 1)");
    assert_eq!(texts(out), vec!["! expected a list, got int".to_string()]);
    assert_eq!(effects.sound, vec![Step::Tone(220, 90)]);
}

#[test]
fn bare_builtin_names_are_evaluated() {
    let mut shell = Shell::new();
    let mut fs = FileSystem::new();
    let (out, _) = run(&mut shell, &mut fs, "car");
    assert_eq!(texts(out), vec!["! car expects 1 argument(s)".to_string()]);
}

#[test]
fn unknown_commands_are_refused_with_a_tone() {
    let mut shell = Shell::new();
    let mut fs = FileSystem::new();
    let (out, effects) = run(&mut shell, &mut fs, "frobnicate now");
    assert_eq!(
        texts(out),
        vec!["frobnicate: not a command".to_string(), "try `help`, or `ask` followed by a question".to_string()]
    );
    assert_eq!(effects.sound, vec![Step::Tone(220, 90)]);
}

#[test]
fn files_round_trip_through_the_shell() {
    let mut shell = Shell::new();
    let mut fs = FileSystem::new();
    let (out, _) = run(&mut shell, &mut fs, "write /tmp/a.txt hi there");
    assert_eq!(texts(out), vec!["wrote /tmp/a.txt (9 bytes)".to_string()]);
    assert_eq!(fs.read("/tmp/a.txt").unwrap().data.clone(), b"hi there\n".to_vec());
    let (out, _) = run(&mut shell, &mut fs, "cat /tmp/a.txt");
    assert_eq!(texts(out), vec!["hi there".to_string()]);
    let (out, _) = run(&mut shell, &mut fs, "ls");
    assert_eq!(texts(out), vec!["        9  /tmp/a.txt".to_string(), "  1 file(s), 9 bytes".to_string()]);
    let (out, _) = run(&mut shell, &mut fs, "rm /tmp/a.txt");
    assert_eq!(texts(out), vec!["removed /tmp/a.txt".to_string()]);
    let (out, _) = run(&mut shell, &mut fs, "rm /tmp/a.txt");
    assert_eq!(texts(out), vec!["rm: no such file".to_string()]);
    let (out, _) = run(&mut shell, &mut fs, "cat /tmp/a.txt");
    assert_eq!(texts(out), vec!["/tmp/a.txt: no such file".to_string()]);
    let (out, _) = run(&mut shell, &mut fs, "ls");
    assert_eq!(texts(out), vec!["(no files)".to_string()]);
    let (out, _) = run(&mut shell, &mut fs, "write");
    assert_eq!(texts(out), vec!["write: write <file> <text>".to_string()]);
    let (out, _) = run(&mut shell, &mut fs, "write / x");
    assert_eq!(texts(out), vec!["write: cannot write to the root".to_string()]);
}

#[test]
fn machine_commands_come_back_as_requests() {
    let mut shell = Shell::new();
    let mut fs = FileSystem::new();
    assert!(matches!(run(&mut shell, &mut fs, "mem").0, Outcome::Machine(Request::Memory)));
    assert!(matches!(run(&mut shell, &mut fs, "uptime").0, Outcome::Machine(Request::Uptime)));
    assert!(matches!(run(&mut shell, &mut fs, "halt").0, Outcome::Machine(Request::PowerOff)));
    assert!(matches!(
        run(&mut shell, &mut fs, "beep 440 50").0,
        Outcome::Machine(Request::Beep { frequency: 440, duration: 50 })
    ));
    assert!(matches!(
        run(&mut shell, &mut fs, "beep").0,
        Outcome::Machine(Request::Beep { frequency: 880, duration: 120 })
    ));
    assert!(matches!(
        run(&mut shell, &mut fs, "beep loud +7").0,
        Outcome::Machine(Request::Beep { frequency: 880, duration: 7 })
    ));
    assert!(matches!(
        run(&mut shell, &mut fs, "audio 220").0,
        Outcome::Machine(Request::Audio { frequency: 220, duration: 700 })
    ));
    match run(&mut shell, &mut fs, "ask what is halcyon").0 {
        Outcome::Machine(Request::Ask(q)) => assert_eq!(q, "what is halcyon"),
        _ => panic!("ask goes to the persona"),
    }
}

#[test]
fn effects_for_the_window() {
    let mut shell = Shell::new();
    let mut fs = FileSystem::new();
    let (out, effects) = run(&mut shell, &mut fs, "run paint");
    assert_eq!(texts(out), vec!["opening paint".to_string()]);
    assert_eq!(effects.launch, Some("paint".to_string()));
    let (_, effects) = run(&mut shell, &mut fs, "clear");
    assert!(effects.clear);
    let (_, effects) = run(&mut shell, &mut fs, "quit");
    assert!(effects.close);
    let (out, _) = run(&mut shell, &mut fs, "run");
    assert_eq!(
        texts(out),
        vec!["run: name an application (try: monitor, about, editor, files, paint, snake)".to_string()]
    );
}

#[test]
fn formatting_what_the_machine_reported() {
    let lines: Vec<String> = Shell::uptime_lines(3_723_456, 3_723_456).into_iter().map(|l| l.text).collect();
    assert_eq!(lines, vec!["up 1h 02m 03.456s  (3723456 timer ticks at 1000 Hz)".to_string()]);
    let now = DateTime { year: 2024, month: 3, day: 7, hour: 9, minute: 5, second: 2 };
    let lines: Vec<String> = Shell::date_lines(now).into_iter().map(|l| l.text).collect();
    assert_eq!(lines, vec!["2024-03-07 09:05:02  (CMOS RTC, UTC as the firmware set it)".to_string()]);
    let bad = DateTime { year: 2024, month: 13, day: 7, hour: 9, minute: 5, second: 2 };
    let lines: Vec<String> = Shell::date_lines(bad).into_iter().map(|l| l.text).collect();
    assert_eq!(lines, vec!["the CMOS clock did not answer sensibly".to_string()]);
    let lines: Vec<String> = Shell::beep_lines(440, 50).into_iter().map(|l| l.text).collect();
    assert_eq!(lines, vec!["440 Hz for 50 ms (silent if this machine has no speaker)".to_string()]);
}

#[test]
fn the_banner_shows_the_message_of_the_day() {
    let shell = Shell::new();
    let mut fs = FileSystem::new();
    assert_eq!(shell.banner(&fs).len(), 2);
    fs.write("/motd.txt", b"welcome\r\naboard\n".to_vec()).unwrap();
    let lines: Vec<String> = shell.banner(&fs).into_iter().map(|l| l.text).collect();
    assert_eq!(lines[2..].to_vec(), vec!["".to_string(), "welcome".to_string(), "aboard".to_string()]);
}

fn key(k: Key, character: Option<char>) -> KeyEvent {
    KeyEvent { key: k, character, pressed: true, modifiers: Modifiers::default() }
}

fn type_text(terminal: &mut Terminal, fs: &mut FileSystem, text: &str) {
    let mut response = AppResponse::new();
    for c in text.chars() {
        terminal.on_key(&key(Key::Char, Some(c)), 0, fs, &mut response);
    }
}

#[test]
fn the_terminal_runs_a_line() {
    let mut fs = FileSystem::new();
    let mut terminal = Terminal::new(&fs);
    type_text(&mut terminal, &mut fs, "echo hi");
    assert_eq!(terminal.input(), "echo hi");
    let mut response = AppResponse::new();
    let request = terminal.on_key(&key(Key::Enter, None), 5, &mut fs, &mut response);
    assert!(request.is_none());
    let lines = terminal.lines();
    let n = lines.len();
    assert_eq!(lines[n - 2].text, "halcyon> echo hi");
    assert_eq!(lines[n - 1].text, "hi");
    assert_eq!(terminal.input(), "");
    terminal.on_key(&key(Key::Up, None), 6, &mut fs, &mut response);
    assert_eq!(terminal.input(), "echo hi");
    terminal.on_key(&key(Key::Down, None), 7, &mut fs, &mut response);
    assert_eq!(terminal.input(), "");
}

#[test]
fn the_terminal_completes_names() {
    let mut fs = FileSystem::new();
    let mut terminal = Terminal::new(&fs);
    let mut response = AppResponse::new();
    type_text(&mut terminal, &mut fs, "(upp");
    terminal.on_key(&key(Key::Tab, None), 0, &mut fs, &mut response);
    assert_eq!(terminal.input(), "(upper");
    terminal.on_key(&key(Key::Escape, None), 0, &mut fs, &mut response);
    type_text(&mut terminal, &mut fs, "(c");
    terminal.on_key(&key(Key::Tab, None), 0, &mut fs, &mut response);
    let lines = terminal.lines();
    assert_eq!(lines[lines.len() - 1].text, "car  cdr  chr  cons");
}

#[test]
fn the_terminal_hands_machine_work_back() {
    let mut fs = FileSystem::new();
    let mut terminal = Terminal::new(&fs);
    type_text(&mut terminal, &mut fs, "uptime");
    let mut response = AppResponse::new();
    let request = terminal.on_key(&key(Key::Enter, None), 0, &mut fs, &mut response);
    assert!(matches!(request, Some(Request::Uptime)));
}
