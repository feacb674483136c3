use pipe_ingest::decode::{decode, DecodeError};
use pipe_ingest::message::{
    Company, CompanyAcquisition, Message, MessageData, Person, PersonEmployment, Timestamp,
};

fn person(id: i32, name: &str) -> Message {
    Message {
        type_: "Person".to_string(),
        data: MessageData::Person(Person { person_id: id, name: name.to_string() }),
    }
}

#[test]
fn decodes_person() {
    let r = decode("{\"type\":\"Person\",\"data\":{\"person_id\":7,\"name\":\"Ada\"}}\n");
    assert_eq!(r, Ok(person(7, "Ada")));
}

#[test]
fn decodes_with_whitespace_and_member_order() {
    let r = decode("  { \"data\" : { \"name\" : \"Bo\" , \"person_id\" : -3 } , \"type\" : \"Person\" }\r\n");
    assert_eq!(r, Ok(person(-3, "Bo")));
}

#[test]
fn decodes_company_with_and_without_headcount() {
    let r = decode("{\"type\":\"Company\",\"data\":{\"company_id\":1,\"company_name\":\"Acme\",\"headcount\":250}}");
    assert_eq!(
        r,
        Ok(Message {
            type_: "Company".to_string(),
            data: MessageData::Company(Company {
                company_id: 1,
                company_name: "Acme".to_string(),
                headcount: Some(250),
            }),
        })
    );
    let r = decode("{\"type\":\"Company\",\"data\":{\"company_id\":1,\"company_name\":\"Acme\",\"headcount\":null}}");
    let r2 = decode("{\"type\":\"Company\",\"data\":{\"company_id\":1,\"company_name\":\"Acme\"}}");
    let expected = Message {
        type_: "Company".to_string(),
        data: MessageData::Company(Company {
            company_id: 1,
            company_name: "Acme".to_string(),
            headcount: None,
        }),
    };
    assert_eq!(r, Ok(expected.clone()));
    assert_eq!(r2, Ok(expected));
}

#[test]
fn decodes_acquisition() {
    let r = decode("{\"type\":\"CompanyAcquisition\",\"data\":{\"parent_company_id\":1,\"acquired_company_id\":2,\"merged_into_parent_company\":true}}");
    assert_eq!(
        r,
        Ok(Message {
            type_: "CompanyAcquisition".to_string(),
            data: MessageData::CompanyAcquisition(CompanyAcquisition {
                parent_company_id: 1,
                acquired_company_id: 2,
                merged_into_parent_company: true,
            }),
        })
    );
}

#[test]
fn decodes_employment_with_dates() {
    let r = decode("{\"type\":\"PersonEmployment\",\"data\":{\"company_id\":1,\"person_id\":2,\"employment_title\":\"CEO\",\"start_date\":\"2020-01-02T03:04:05Z\",\"end_date\":\"2020-01-02T04:04:05.5+01:00\"}}");
    assert_eq!(
        r,
        Ok(Message {
            type_: "PersonEmployment".to_string(),
            data: MessageData::PersonEmployment(PersonEmployment {
                company_id: 1,
                person_id: 2,
                employment_title: "CEO".to_string(),
                start_date: Some(Timestamp { secs: 1577934245, nanos: 0 }),
                end_date: Some(Timestamp { secs: 1577934245, nanos: 500_000_000 }),
            }),
        })
    );
}

#[test]
fn employment_without_dates_decodes() {
    let r = decode("{\"type\":\"PersonEmployment\",\"data\":{\"company_id\":4,\"person_id\":5,\"employment_title\":\"Engineer\"}}");
    assert_eq!(
        r,
        Ok(Message {
            type_: "PersonEmployment".to_string(),
            data: MessageData::PersonEmployment(PersonEmployment {
                company_id: 4,
                person_id: 5,
                employment_title: "Engineer".to_string(),
                start_date: None,
                end_date: None,
            }),
        })
    );
}

#[test]
fn bad_date_is_schema_mismatch() {
    let r = decode("{\"type\":\"PersonEmployment\",\"data\":{\"company_id\":4,\"person_id\":5,\"employment_title\":\"E\",\"start_date\":\"yesterday\"}}");
    assert_eq!(r, Err(DecodeError::SchemaMismatch));
}

#[test]
fn not_json_is_malformed() {
    assert_eq!(decode("not json\n"), Err(DecodeError::MalformedSyntax));
    assert_eq!(decode("{\"type\":\"Person\""), Err(DecodeError::MalformedSyntax));
    assert_eq!(decode("{\"a\":01}"), Err(DecodeError::MalformedSyntax));
    assert_eq!(decode("{\"a\":\"x\"} trailing"), Err(DecodeError::MalformedSyntax));
}

#[test]
fn unknown_type_is_unknown_variant() {
    assert_eq!(decode("{\"type\":\"Bogus\",\"data\":{}}\n"), Err(DecodeError::UnknownVariant));
}

#[test]
fn schema_mismatches() {
    // missing required field
    assert_eq!(
        decode("{\"type\":\"Person\",\"data\":{\"person_id\":7}}"),
        Err(DecodeError::SchemaMismatch)
    );
    // wrong kind of value
    assert_eq!(
        decode("{\"type\":\"Person\",\"data\":{\"person_id\":\"7\",\"name\":\"A\"}}"),
        Err(DecodeError::SchemaMismatch)
    );
    // integer outside i32, and a fraction
    assert_eq!(
        decode("{\"type\":\"Person\",\"data\":{\"person_id\":2147483648,\"name\":\"A\"}}"),
        Err(DecodeError::SchemaMismatch)
    );
    assert_eq!(
        decode("{\"type\":\"Person\",\"data\":{\"person_id\":1.5,\"name\":\"A\"}}"),
        Err(DecodeError::SchemaMismatch)
    );
    // no type tag, and no data object
    assert_eq!(decode("{\"data\":{}}"), Err(DecodeError::SchemaMismatch));
    assert_eq!(decode("{\"type\":\"Person\",\"data\":3}"), Err(DecodeError::SchemaMismatch));
}

#[test]
fn integer_bounds() {
    assert_eq!(
        decode("{\"type\":\"Person\",\"data\":{\"person_id\":-2147483648,\"name\":\"A\"}}"),
        Ok(person(i32::MIN, "A"))
    );
    assert_eq!(
        decode("{\"type\":\"Person\",\"data\":{\"person_id\":2147483647,\"name\":\"A\"}}"),
        Ok(person(i32::MAX, "A"))
    );
}

#[test]
fn string_escapes() {
    let r = decode("{\"type\":\"Person\",\"data\":{\"person_id\":1,\"name\":\"a\\\"b\\\\c\\n\\u00e9\\ud83d\\ude00\"}}");
    assert_eq!(r, Ok(person(1, "a\"b\\c\né\u{1F600}")));
    assert_eq!(
        decode("{\"type\":\"Person\",\"data\":{\"person_id\":1,\"name\":\"\\ud83d\"}}"),
        Err(DecodeError::MalformedSyntax)
    );
}

#[test]
fn first_member_of_a_name_wins() {
    let r = decode("{\"type\":\"Person\",\"data\":{\"person_id\":1,\"person_id\":2,\"name\":\"A\"}}");
    assert_eq!(r, Ok(person(1, "A")));
}
