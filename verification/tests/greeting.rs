use ailly::Greeting;

#[test]
fn new_stores_text() {
    let greeting = Greeting::new("hello");
    assert_eq!(greeting.text(), "hello");
}

#[test]
fn text_round_trips_through_string() {
    let greeting = Greeting::new(String::from("owned").as_str());
    assert_eq!(greeting.text(), "owned");
}
