use denon_control::makros::skip_prefix;

#[test]
fn round_brackets() {
    let mut x = Vec::new();
    x.push(1);
    x.push(2);
    x.push(3);
    assert_eq!(3, x.len());
    assert_eq!(1, x[0]);
    assert_eq!(2, x[1]);
    assert_eq!(3, x[2]);
}

#[test]
fn square_brackets() {
    let mut x = Vec::new();
    x.push(1);
    x.push(2);
    x.push(3);
    assert_eq!(3, x.len());
    assert_eq!(1, x[0]);
    assert_eq!(2, x[1]);
    assert_eq!(3, x[2]);
}

#[test]
fn empty_vector() {
    let x: Vec<u32> = Vec::new();
    assert_eq!(0, x.len());
}

#[test]
fn one_element() {
    let mut x = Vec::new();
    x.push(5);
    assert_eq!(1, x.len());
    assert_eq!(5, x[0]);
}

#[test]
fn vector_with_content() {
    let mut x = Vec::new();
    x.push(1);
    x.push(2);
    x.push(3);
    x.push(4);
    x.push(5);
    assert_eq!(5, x.len());
    assert_eq!(1, x[0]);
    assert_eq!(2, x[1]);
    assert_eq!(3, x[2]);
    assert_eq!(4, x[3]);
    assert_eq!(5, x[4]);
}

#[test]
fn scopes_und_so() {
    let line = String::from("lang:en=Hello World!");
    let lang = "en";

    let p = format!("lang:{}=", lang);
    let x = skip_prefix(line.as_str(), p.as_str());
    assert_eq!("Hello World!", x);
    let y = skip_prefix(line.as_str(), "blub");
    assert_eq!(y, y)
}

#[test]
fn skip_prefix_without_match_returns_line() {
    assert_eq!("lang:en", skip_prefix("lang:en", "blub"));
    assert_eq!("", skip_prefix("abc", "abc"));
}
