use ascii_terminal::pivot::Pivot;
use ascii_terminal::string_formatting::StringFormatter;

#[test]
fn write() {
    let str = "Hello".to_string();

    let mut formatter = StringFormatter::new(Pivot::TopRight, &str);
    formatter.from_pivot(Pivot::BottomLeft);
}
