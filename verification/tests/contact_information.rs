use sd8viz_cli::contact_information::{get_contact_information, row_has_precinct, ContactInformation};

fn rows(precincts: &[&str]) -> Vec<ContactInformation> {
    precincts.iter().map(|p| ContactInformation::new(p)).collect()
}

fn precincts(block: &[&ContactInformation]) -> Vec<String> {
    block.iter().map(|r| r.precinct.clone()).collect()
}

#[test]
fn new_sets_the_precinct() {
    let info = ContactInformation::new("2-01");
    assert_eq!(info.precinct, "2-01");
}

#[test]
fn skips_leading_blank_rows_and_stops_at_the_next_blank() {
    let rows = rows(&["", "2-01", "3-02", "", "4-01"]);
    let block = get_contact_information(&rows);
    assert_eq!(precincts(&block), vec!["2-01", "3-02"]);
}

#[test]
fn all_blank_rows_give_an_empty_block() {
    let rows = rows(&["", "", ""]);
    assert!(get_contact_information(&rows).is_empty());
}

#[test]
fn no_rows_give_an_empty_block() {
    let rows: Vec<ContactInformation> = Vec::new();
    assert!(get_contact_information(&rows).is_empty());
}

#[test]
fn block_runs_to_the_end() {
    let rows = rows(&["1-01", "1-02"]);
    assert_eq!(precincts(&get_contact_information(&rows)), vec!["1-01", "1-02"]);
}

#[test]
fn selecting_twice_gives_the_same_block() {
    let rows = rows(&["", "", "5-01", "5-02", "", "6-01"]);
    let block = get_contact_information(&rows);
    let again: Vec<ContactInformation> = block.iter().map(|r| ContactInformation::new(&r.precinct)).collect();
    assert_eq!(precincts(&get_contact_information(&again)), precincts(&block));
}

#[test]
fn row_has_precinct_tells_blank_rows_apart() {
    let blank = ContactInformation::new("");
    let full = ContactInformation::new("2-01");
    assert!(row_has_precinct(&blank).is_none());
    assert_eq!(row_has_precinct(&full).unwrap().precinct, "2-01");
}
