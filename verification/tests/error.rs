use minesweeper::error::ToCrateError;
use minesweeper::prelude::{Error, ToCrateResult};

#[test]
fn test_generic_error() {
    println!("{}", Error::from("Error!").to_string());
}

#[test]
fn test_other_error() {
    println!("{}", std::fmt::Error {}.to_crate_error().to_string())
}

#[test]
fn generic_error_shows_its_message() {
    assert_eq!(Error::from("Error!").to_string(), "Generic error 'Error!'");
}

#[test]
fn other_error_shows_the_text_of_its_source() {
    let shown = std::fmt::Error {}.to_crate_error().to_string();
    assert_eq!(shown, format!("3rd party error '{}'", std::fmt::Error {}));
}

#[test]
fn result_keeps_success_and_converts_failure() {
    let fine: Result<u8, std::fmt::Error> = Ok(7);
    assert!(matches!(fine.to_crate_result(), Ok(7)));
    let failed: Result<u8, std::fmt::Error> = Err(std::fmt::Error {});
    match failed.to_crate_result() {
        Err(Error::Other(message)) => assert_eq!(message, std::fmt::Error {}.to_string()),
        _ => panic!("a failure must stay a failure"),
    }
}
