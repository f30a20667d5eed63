use helix::command_multiplier::CommandMultiplier;
use helix::register::Registers;

fn strings(v: &[&str]) -> Vec<String> {
    v.iter().map(|s| s.to_string()).collect()
}

#[test]
fn written_values_are_read_back() {
    let mut registers = Registers::default();
    assert!(registers.get('a').is_none());
    registers.write('a', strings(&["one", "two"]));
    assert_eq!(registers.get('a'), Some(&strings(&["one", "two"])));
    registers.write('a', strings(&["three"]));
    assert_eq!(registers.get('a'), Some(&strings(&["three"])));
    assert!(registers.get('b').is_none());
}

#[test]
fn the_black_hole_register_holds_nothing() {
    let mut registers = Registers::default();
    registers.write('_', strings(&["gone"]));
    registers.push('_', "gone too".to_string());
    assert!(registers.get('_').is_none());
    assert!(registers.get_all().is_empty());
}

#[test]
fn push_puts_values_at_the_front() {
    let mut registers = Registers::default();
    registers.push('x', "first".to_string());
    registers.push('x', "second".to_string());
    registers.push('x', "third".to_string());
    assert_eq!(registers.get('x'), Some(&strings(&["third", "second", "first"])));
    // `last` is the newest value, `first` the oldest
    assert_eq!(registers.last('x'), Some(&"third".to_string()));
    assert_eq!(registers.first('x'), Some(&"first".to_string()));
    assert!(registers.first('y').is_none());
    assert_eq!(registers.get_all().len(), 1);
}

#[test]
fn command_multiplier_appends_digits() {
    let mut m = CommandMultiplier::new();
    assert_eq!(m.get(), None);
    assert_eq!(m.unwrap_or_one(), 1);
    m.push_digit(4);
    m.push_digit(2);
    assert_eq!(m.get(), Some(42));
    m.push_digit(17);
    assert_eq!(m.get(), Some(4217));
    m.clear();
    assert_eq!(m.get(), None);
    m.set(9);
    assert_eq!(m.unwrap_or_one(), 9);
    m.push_digit(1);
    assert_eq!(m.get(), Some(91));
}
