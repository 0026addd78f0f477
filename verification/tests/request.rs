use wait_timer::request::duration_argument;
use wait_timer::requested_wait;
use wait_timer::ParseError;
use wait_timer::Time;
use wait_timer::WaitError;

fn line(words: &[&str]) -> Vec<String> {
    words.iter().map(|word| word.to_string()).collect()
}

#[test]
fn one_argument_is_read() {
    assert_eq!(requested_wait(&line(&["wait", "2s"])), Ok(Time::from_secs(2)));
    assert_eq!(
        requested_wait(&line(&["wait", "1m"])).map(|time| time.as_secs()),
        Ok(60)
    );
    assert_eq!(
        requested_wait(&line(&["wait", "1h30m"])).map(|time| time.as_secs()),
        Ok(5400)
    );
}

#[test]
fn no_argument_is_a_usage_error() {
    assert_eq!(requested_wait(&line(&["wait"])), Err(WaitError::InvalidArgs));
    assert_eq!(requested_wait(&Vec::new()), Err(WaitError::InvalidArgs));
}

#[test]
fn more_than_one_argument_is_a_usage_error() {
    assert_eq!(
        requested_wait(&line(&["wait", "1h", "30m"])),
        Err(WaitError::InvalidArgs)
    );
    assert_eq!(
        requested_wait(&line(&["wait", "1h", "30m", "5s"])),
        Err(WaitError::InvalidArgs)
    );
    assert_eq!(
        requested_wait(&line(&["wait", "not a duration", "5"])),
        Err(WaitError::InvalidArgs)
    );
}

#[test]
fn a_refused_argument_carries_its_fault() {
    assert_eq!(
        requested_wait(&line(&["wait", "1h 30m"])),
        Err(WaitError::CannotParse(ParseError::MalformedToken(
            " 30m".to_string()
        )))
    );
    assert_eq!(
        requested_wait(&line(&["wait", "5x"])),
        Err(WaitError::CannotParse(ParseError::UnrecognisedUnit('x')))
    );
    assert_eq!(
        requested_wait(&line(&["wait", ""])),
        Err(WaitError::CannotParse(ParseError::MalformedToken(
            String::new()
        )))
    );
    assert_eq!(
        requested_wait(&line(&["wait", "18446744073709551615s1s"])),
        Err(WaitError::CannotParse(ParseError::NumericOverflow))
    );
}

#[test]
fn the_argument_is_the_word_after_the_name() {
    let args = line(&["wait", "5m"]);
    assert_eq!(duration_argument(&args), Ok(&args[1]));
    assert_eq!(duration_argument(&line(&["5m"])), Err(WaitError::InvalidArgs));
    assert_eq!(
        duration_argument(&line(&["wait", "5m", "5m"])),
        Err(WaitError::InvalidArgs)
    );
}

#[test]
fn a_parse_error_becomes_a_wait_error() {
    assert_eq!(
        WaitError::from(ParseError::NumericOverflow),
        WaitError::CannotParse(ParseError::NumericOverflow)
    );
    assert_eq!(
        WaitError::from(ParseError::MalformedToken("5".to_string())),
        WaitError::CannotParse(ParseError::MalformedToken("5".to_string()))
    );
}

#[test]
fn errors_are_cloned_whole() {
    let fault = ParseError::MalformedToken(" 30m".to_string());
    assert_eq!(fault.clone(), fault);
    assert_eq!(
        ParseError::UnrecognisedUnit('x').clone(),
        ParseError::UnrecognisedUnit('x')
    );
    assert_eq!(ParseError::NumericOverflow.clone(), ParseError::NumericOverflow);
    let refused = WaitError::CannotParse(fault);
    assert_eq!(refused.clone(), refused);
    assert_eq!(WaitError::InvalidArgs.clone(), WaitError::InvalidArgs);
}
