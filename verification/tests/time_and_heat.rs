use beatstar::error::DatabaseError;
use beatstar::metrics::{heat_terms, HeatTerms};
use beatstar::time::unix_time;

#[test]
fn an_rfc3339_text_names_its_unix_time() {
    assert_eq!(unix_time("1970-01-01T00:00:00Z"), Ok(0));
    assert_eq!(unix_time("2015-05-15T00:00:00Z"), Ok(1431648000));
    assert_eq!(unix_time("2018-05-01T00:00:00+00:00"), Ok(1525132800));
    assert_eq!(unix_time("1996-12-19T16:39:57-08:00"), Ok(851042397));
    assert_eq!(unix_time("2021-03-04T05:06:07.891Z"), Ok(1614834367));
    assert_eq!(unix_time("1969-12-31T23:59:59Z"), Ok(-1));
}

#[test]
fn a_text_that_is_no_rfc3339_time_is_refused() {
    assert_eq!(unix_time(""), Err(DatabaseError::TimeParse));
    assert_eq!(unix_time("yesterday"), Err(DatabaseError::TimeParse));
    assert_eq!(unix_time("2015-05-15"), Err(DatabaseError::TimeParse));
    assert_eq!(unix_time("2015-05-15T00:00:00"), Err(DatabaseError::TimeParse));
    assert_eq!(unix_time("2015-13-15T00:00:00Z"), Err(DatabaseError::TimeParse));
    assert_eq!(unix_time("1431648000"), Err(DatabaseError::TimeParse));
}

#[test]
fn the_heat_of_a_liked_song() {
    assert_eq!(
        heat_terms(100, 0, 0, 45000),
        Some(HeatTerms { magnitude: -2, seconds: 45000 })
    );
    assert_eq!(
        heat_terms(9, 1, 1000, 91000),
        Some(HeatTerms { magnitude: 0, seconds: 90000 })
    );
    assert_eq!(
        heat_terms(1010, 10, 0, 0),
        Some(HeatTerms { magnitude: -3, seconds: 0 })
    );
    assert_eq!(
        heat_terms(u32::MAX, 0, 0, 0),
        Some(HeatTerms { magnitude: -9, seconds: 0 })
    );
}

#[test]
fn the_heat_of_a_song_without_a_lead() {
    assert_eq!(heat_terms(0, 0, 7, 7), Some(HeatTerms { magnitude: 0, seconds: 0 }));
    assert_eq!(heat_terms(5, 5, 10, 5), Some(HeatTerms { magnitude: 0, seconds: -5 }));
}

#[test]
fn the_heat_of_a_disliked_song_has_no_magnitude() {
    assert_eq!(
        heat_terms(1, 101, 10, 5),
        Some(HeatTerms { magnitude: 0, seconds: -5 })
    );
    assert_eq!(
        heat_terms(0, u32::MAX, 0, 1),
        Some(HeatTerms { magnitude: 0, seconds: 1 })
    );
}

#[test]
fn seconds_that_do_not_fit_give_no_heat() {
    assert_eq!(heat_terms(1, 0, i64::MIN, 1), None);
    assert_eq!(heat_terms(1, 0, 1, i64::MIN), None);
    assert_eq!(heat_terms(1, 0, -1, i64::MAX), None);
    assert_eq!(
        heat_terms(1, 0, 0, i64::MAX),
        Some(HeatTerms { magnitude: 0, seconds: i64::MAX })
    );
    assert_eq!(
        heat_terms(1, 0, 0, i64::MIN),
        Some(HeatTerms { magnitude: 0, seconds: i64::MIN })
    );
}

#[test]
fn failures_say_what_they_are() {
    assert_eq!(DatabaseError::Transport.to_string(), "the archive could not be fetched");
    assert_eq!(
        DatabaseError::MissingContentLength.to_string(),
        "the response carries no content length"
    );
    assert_eq!(DatabaseError::Archive.to_string(), "the archive cannot be read");
    assert_eq!(DatabaseError::Parse.to_string(), "the records cannot be decoded");
    assert_eq!(DatabaseError::TimeParse.to_string(), "a time stamp cannot be parsed");
    assert_eq!(DatabaseError::Metrics.to_string(), "the metrics do not fit the records");
}
