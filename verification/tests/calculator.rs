use lib::apps::calculator::{render, Calculator};
use lib::input::{Key, KeyEvent, Modifiers};

fn key(character: char) -> KeyEvent {
    KeyEvent { key: Key::Char, character: Some(character), pressed: true, modifiers: Modifiers::default() }
}

fn press(calculator: &mut Calculator, keys: &str) {
    for c in keys.chars() {
        calculator.on_key(&key(c));
    }
}

fn shown(calculator: &Calculator) -> String {
    calculator.shown().into_iter().collect()
}

#[test]
fn renders_fixed_point() {
    let text = |v: i64| -> String { render(v).into_iter().collect() };
    assert_eq!(text(12345), "1.2345");
    assert_eq!(text(-5000), "-0.5");
    assert_eq!(text(0), "0");
    assert_eq!(text(30000), "3");
    assert_eq!(text(2500), "0.25");
    assert_eq!(text(i64::MIN), "-922337203685477.5808");
}

#[test]
fn adds_and_records_history() {
    let mut c = Calculator::new();
    assert_eq!(shown(&c), "0");
    press(&mut c, "12+3=");
    assert_eq!(shown(&c), "15");
    let history: Vec<String> = c.history().into_iter().map(|l| l.into_iter().collect()).collect();
    assert_eq!(history, vec!["12 + 3 = 15".to_string()]);
}

#[test]
fn multiplies_and_divides_in_fixed_point() {
    let mut c = Calculator::new();
    press(&mut c, "1.5*2=");
    assert_eq!(shown(&c), "3");
    let mut c = Calculator::new();
    press(&mut c, "1/4=");
    assert_eq!(shown(&c), "0.25");
    let mut c = Calculator::new();
    press(&mut c, "5-8=");
    assert_eq!(shown(&c), "-3");
}

#[test]
fn division_by_zero_is_reported() {
    let mut c = Calculator::new();
    press(&mut c, "1/0=");
    assert_eq!(shown(&c), "division by zero");
    press(&mut c, "7");
    assert_eq!(shown(&c), "7");
}

#[test]
fn percent_negate_and_backspace() {
    let mut c = Calculator::new();
    press(&mut c, "50%");
    assert_eq!(shown(&c), "0.5");
    let mut c = Calculator::new();
    press(&mut c, "12");
    c.on_key(&KeyEvent { key: Key::Backspace, character: None, pressed: true, modifiers: Modifiers::default() });
    assert_eq!(shown(&c), "1");
    c.on_key(&KeyEvent { key: Key::Backspace, character: None, pressed: true, modifiers: Modifiers::default() });
    assert_eq!(shown(&c), "0");
}

#[test]
fn twelve_digits_at_most() {
    let mut c = Calculator::new();
    press(&mut c, "1234567890123");
    assert_eq!(shown(&c), "123456789012");
}

#[test]
fn the_keypad_has_twenty_buttons() {
    let mut c = Calculator::new();
    c.layout(280, 380);
    assert_eq!(c.min_size(), (260, 340));
}
