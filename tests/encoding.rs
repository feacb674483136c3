use pipe_ingest::decode::decode;
use pipe_ingest::encode::encode;
use pipe_ingest::message::{
    Company, CompanyAcquisition, Message, MessageData, Person, PersonEmployment, Timestamp,
};

fn samples() -> Vec<Message> {
    vec![
        Message {
            type_: "Person".to_string(),
            data: MessageData::Person(Person { person_id: -42, name: "Zoë \"Z\"\\\t\u{1}".to_string() }),
        },
        Message {
            type_: "Company".to_string(),
            data: MessageData::Company(Company {
                company_id: 0,
                company_name: "Acme".to_string(),
                headcount: None,
            }),
        },
        Message {
            type_: "Company".to_string(),
            data: MessageData::Company(Company {
                company_id: i32::MAX,
                company_name: "".to_string(),
                headcount: Some(i32::MIN),
            }),
        },
        Message {
            type_: "CompanyAcquisition".to_string(),
            data: MessageData::CompanyAcquisition(CompanyAcquisition {
                parent_company_id: 1,
                acquired_company_id: 2,
                merged_into_parent_company: false,
            }),
        },
        Message {
            type_: "PersonEmployment".to_string(),
            data: MessageData::PersonEmployment(PersonEmployment {
                company_id: 1,
                person_id: 2,
                employment_title: "CTO".to_string(),
                start_date: Some(Timestamp { secs: 1577934245, nanos: 0 }),
                end_date: Some(Timestamp { secs: -1, nanos: 250_000_000 }),
            }),
        },
        Message {
            type_: "PersonEmployment".to_string(),
            data: MessageData::PersonEmployment(PersonEmployment {
                company_id: 1,
                person_id: 2,
                employment_title: "CTO".to_string(),
                start_date: None,
                end_date: None,
            }),
        },
    ]
}

#[test]
fn encode_then_decode_gives_the_message_back() {
    for m in samples() {
        let line = encode(&m).expect("every date here is in range");
        assert_eq!(decode(&line), Ok(m));
    }
}

#[test]
fn encodes_canonical_person_line() {
    let m = Message {
        type_: "Person".to_string(),
        data: MessageData::Person(Person { person_id: 7, name: "a\"b\\c\u{1}".to_string() }),
    };
    assert_eq!(
        encode(&m),
        Some("{\"type\":\"Person\",\"data\":{\"person_id\":7,\"name\":\"a\\\"b\\\\c\\u0001\"}}".to_string())
    );
}

#[test]
fn encodes_dates_as_rfc3339() {
    let m = Message {
        type_: "PersonEmployment".to_string(),
        data: MessageData::PersonEmployment(PersonEmployment {
            company_id: 1,
            person_id: 2,
            employment_title: "CEO".to_string(),
            start_date: Some(Timestamp { secs: 1577934245, nanos: 0 }),
            end_date: None,
        }),
    };
    assert_eq!(
        encode(&m),
        Some("{\"type\":\"PersonEmployment\",\"data\":{\"company_id\":1,\"person_id\":2,\"employment_title\":\"CEO\",\"start_date\":\"2020-01-02T03:04:05+00:00\",\"end_date\":null}}".to_string())
    );
}

#[test]
fn date_outside_chrono_range_is_not_encoded() {
    let m = Message {
        type_: "PersonEmployment".to_string(),
        data: MessageData::PersonEmployment(PersonEmployment {
            company_id: 1,
            person_id: 2,
            employment_title: "CEO".to_string(),
            start_date: Some(Timestamp { secs: i64::MAX, nanos: 0 }),
            end_date: None,
        }),
    };
    assert_eq!(encode(&m), None);
}
