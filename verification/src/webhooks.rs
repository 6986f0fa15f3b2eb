//! What the webhook server receives and answers, as plain values.

use std::collections::HashMap;
use vstd::prelude::*;

verus! {

/// The answer to a question that asks for a count.
#[derive(Default, Clone, Debug)]
pub struct CounterResponse {
    pub count: i32,
}

/// The path of a request about one RFD.
#[derive(Debug)]
pub struct RFDPathParams {
    pub num: i32,
}

/// A GitHub RateLimit
#[derive(Debug, Clone, Default)]
pub struct GitHubRateLimit {
    pub limit: u32,
    pub remaining: u32,
    pub reset: String,
}

/// A Google Sheet edit event.
#[derive(Debug, Clone, Default)]
pub struct GoogleSpreadsheetEditEvent {
    pub event: GoogleSpreadsheetEvent,
    pub spreadsheet: GoogleSpreadsheet,
}

/// What happened in a Google Sheet.
#[derive(Debug, Clone, Default)]
pub struct GoogleSpreadsheetEvent {
    pub auth_mode: String,
    pub old_value: String,
    pub value: String,
    pub range: GoogleSpreadsheetRange,
    pub source: GoogleSpreadsheetSource,
    pub trigger_uid: String,
    pub user: GoogleSpreadsheetUser,
    pub named_values: HashMap<String, Vec<String>>,
    pub values: Vec<String>,
}

/// The cells that an event is about.
#[derive(Debug, Clone, Default)]
pub struct GoogleSpreadsheetRange {
    pub column_end: i64,
    pub column_start: i64,
    pub row_end: i64,
    pub row_start: i64,
}

/// The source of an event. Google says nothing about it.
#[derive(Debug, Clone, Default)]
pub struct GoogleSpreadsheetSource {}

/// The user who caused an event.
#[derive(Debug, Clone, Default)]
pub struct GoogleSpreadsheetUser {
    pub email: String,
    pub name: String,
}

/// The Google Sheet that an event happened in.
#[derive(Debug, Clone, Default)]
pub struct GoogleSpreadsheet {
    pub id: String,
    pub name: String,
}

/// A Google Sheet row create event.
#[derive(Debug, Clone, Default)]
pub struct GoogleSpreadsheetRowCreateEvent {
    pub event: GoogleSpreadsheetEvent,
    pub spreadsheet: GoogleSpreadsheet,
}

/// An Airtable row event.
#[derive(Debug, Clone, Default)]
pub struct AirtableRowEvent {
    pub record_id: String,
    pub cio_company_id: i32,
}

/// A SendGrid incoming email event.
#[derive(Debug, Clone, Default)]
pub struct IncomingEmail {
    pub headers: String,
    pub dkim: String,
    pub email: String,
    pub content_ids: String,
    pub to: String,
    pub cc: String,
    pub html: String,
    pub from: String,
    pub text: String,
    pub sender_ip: String,
    pub spam_report: String,
    pub envelope: String,
    pub attachments: String,
    pub subject: String,
    pub spam_score: String,
    pub attachment_info: String,
    pub charsets: String,
    pub spf: String,
}

/// Application file upload data.
#[derive(Debug, Clone, Default)]
pub struct ApplicationFileUploadData {
    pub cio_company_id: i32,
    pub resume: String,
    pub materials: String,
    pub email: String,
    pub role: String,
    pub user_name: String,
    pub resume_contents: String,
    pub materials_contents: String,
}

/// The address at which a user consents to an application.
#[derive(Debug, Clone, Default)]
pub struct UserConsentURL {
    pub url: String,
}

/// What an authorization server sends back once the user has consented.
#[derive(Debug, Clone, Default)]
pub struct AuthCallback {
    pub code: String,
    /// The state that we had passed in through the user consent URL.
    pub state: String,
    pub realm_id: String,
}

/// The path of a request about one function run.
#[derive(Debug)]
pub struct FunctionPathParams {
    pub uuid: String,
}

} // verus!
