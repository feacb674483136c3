//! The typed domain records carried by the stream, and their models.
use vstd::prelude::*;

verus! {

/// An instant in UTC: whole seconds since the Unix epoch and the
/// nanoseconds past that second.
#[derive(Debug, Clone, Copy, PartialEq, Eq, Structural)]
pub struct Timestamp {
    pub secs: i64,
    pub nanos: u32,
}

#[derive(Debug, Clone, PartialEq, Eq)]
pub struct Person {
    pub person_id: i32,
    pub name: String,
}

#[derive(Debug, Clone, PartialEq, Eq)]
pub struct Company {
    pub company_id: i32,
    pub company_name: String,
    pub headcount: Option<i32>,
}

#[derive(Debug, Clone, PartialEq, Eq)]
pub struct CompanyAcquisition {
    pub parent_company_id: i32,
    pub acquired_company_id: i32,
    pub merged_into_parent_company: bool,
}

#[derive(Debug, Clone, PartialEq, Eq)]
pub struct PersonEmployment {
    pub company_id: i32,
    pub person_id: i32,
    pub employment_title: String,
    pub start_date: Option<Timestamp>,
    pub end_date: Option<Timestamp>,
}

#[derive(Debug, Clone, PartialEq, Eq)]
pub enum MessageData {
    Person(Person),
    Company(Company),
    CompanyAcquisition(CompanyAcquisition),
    PersonEmployment(PersonEmployment),
}

/// The envelope: a type tag and the record it announces.
#[derive(Debug, Clone, PartialEq, Eq)]
pub struct Message {
    pub type_: String,
    pub data: MessageData,
}

/// The model of a record: its fields, with text as a sequence of characters.
pub enum DataModel {
    Person { person_id: i32, name: Seq<char> },
    Company { company_id: i32, company_name: Seq<char>, headcount: Option<i32> },
    CompanyAcquisition {
        parent_company_id: i32,
        acquired_company_id: i32,
        merged_into_parent_company: bool,
    },
    PersonEmployment {
        company_id: i32,
        person_id: i32,
        employment_title: Seq<char>,
        start_date: Option<Timestamp>,
        end_date: Option<Timestamp>,
    },
}

pub struct MessageModel {
    pub type_: Seq<char>,
    pub data: DataModel,
}

impl View for MessageData {
    type V = DataModel;

    open spec fn view(&self) -> DataModel {
        match self {
            MessageData::Person(p) => DataModel::Person { person_id: p.person_id, name: p.name@ },
            MessageData::Company(c) => DataModel::Company {
                company_id: c.company_id,
                company_name: c.company_name@,
                headcount: c.headcount,
            },
            MessageData::CompanyAcquisition(a) => DataModel::CompanyAcquisition {
                parent_company_id: a.parent_company_id,
                acquired_company_id: a.acquired_company_id,
                merged_into_parent_company: a.merged_into_parent_company,
            },
            MessageData::PersonEmployment(e) => DataModel::PersonEmployment {
                company_id: e.company_id,
                person_id: e.person_id,
                employment_title: e.employment_title@,
                start_date: e.start_date,
                end_date: e.end_date,
            },
        }
    }
}

impl View for Message {
    type V = MessageModel;

    open spec fn view(&self) -> MessageModel {
        MessageModel { type_: self.type_@, data: self.data@ }
    }
}

/// The type tag that names each kind of record.
pub open spec fn tag_of(d: DataModel) -> Seq<char> {
    match d {
        DataModel::Person { .. } => tag_person(),
        DataModel::Company { .. } => tag_company(),
        DataModel::CompanyAcquisition { .. } => tag_acquisition(),
        DataModel::PersonEmployment { .. } => tag_employment(),
    }
}

pub open spec fn tag_person() -> Seq<char> {
    seq!['P', 'e', 'r', 's', 'o', 'n']
}

pub open spec fn tag_company() -> Seq<char> {
    seq!['C', 'o', 'm', 'p', 'a', 'n', 'y']
}

pub open spec fn tag_acquisition() -> Seq<char> {
    seq![
        'C', 'o', 'm', 'p', 'a', 'n', 'y', 'A', 'c', 'q', 'u', 'i', 's', 'i', 't', 'i', 'o', 'n',
    ]
}

pub open spec fn tag_employment() -> Seq<char> {
    seq![
        'P', 'e', 'r', 's', 'o', 'n', 'E', 'm', 'p', 'l', 'o', 'y', 'm', 'e', 'n', 't',
    ]
}

} // verus!
