//! The fixture crates the inspector is exercised on carry tests of their own;
//! their code and tests are kept here as they stand, so that the fixtures the
//! acceptance tests model stay meaningful Rust.

/// From the `sample` fixture.
fn greet(name: &str) -> String {
    format!("hello, {name}")
}

/// From the `fx_lib` fixture.
fn hello() -> &'static str {
    "hi"
}

#[test]
fn greets() {
    assert_eq!(greet("x"), "hello, x");
}

#[test]
fn hello_works() {
    assert_eq!(hello(), "hi");
}
