use vstd::prelude::*;

pub mod archive;
pub mod filename;
pub mod generate;
pub mod render;
pub mod render_props;

verus! {

/// The four text fields a user submits to describe a project.
#[derive(Debug, Clone)]
pub struct UserInfo {
    pub username: String,
    pub email: String,
    pub project_name: String,
    pub project_description: String,
}

/// A render context: the user's fields plus a server-generated request
/// identifier and a generation timestamp.
#[derive(Debug)]
pub struct TemplateData {
    pub username: String,
    pub email: String,
    pub project_name: String,
    pub project_description: String,
    pub generated_id: String,
    pub timestamp: String,
}

/// Relies on uuid::Uuid::new_v4 and its Display form: a freshly generated
/// random identifier, rendered in the hyphenated format of 36 characters.
#[verifier::external_body]
fn new_generated_id() -> (r: String)
    ensures
        r@.len() == 36,
{
    uuid::Uuid::new_v4().to_string()
}

/// Relies on chrono's conversion from std::time::SystemTime and
/// DateTime::format: the current UTC time rendered as text. The conversion
/// handles a clock before the epoch without panicking. Nothing is assumed of
/// the value.
#[verifier::external_body]
fn now_timestamp() -> (r: String) {
    let now = chrono::DateTime::<chrono::Utc>::from(std::time::SystemTime::now());
    now.format("%Y-%m-%d %H:%M:%S UTC").to_string()
}

impl TemplateData {
    /// Builds the render context for one request: the user's four fields
    /// unchanged, plus a fresh identifier and the current timestamp.
    pub fn from(user_info: UserInfo) -> (r: TemplateData)
        ensures
            r.username@ == user_info.username@,
            r.email@ == user_info.email@,
            r.project_name@ == user_info.project_name@,
            r.project_description@ == user_info.project_description@,
            r.generated_id@.len() == 36,
    {
        TemplateData {
            username: user_info.username,
            email: user_info.email,
            project_name: user_info.project_name,
            project_description: user_info.project_description,
            generated_id: new_generated_id(),
            timestamp: now_timestamp(),
        }
    }
}

} // verus!
