//! The bot's configuration and the outcomes of blob-store requests.
use vstd::prelude::*;
use crate::err::{S3AccessError, S3AccessResult};

verus! {

/// Credentials and identity of the bot's platform account.
#[derive(Debug)]
pub struct Config {
    pub client_id: String,
    pub client_secret: String,
    pub username: String,
    pub password: String,
    pub app_name: String,
    pub version: String,
    pub author: String,
}

/// The status code of a request that the store served.
pub const STATUS_OK: u16 = 200;

/// The outcome of loading `filename`: its content where the store answered
/// with status 200, else a load error naming the file.
pub fn load_outcome(filename: &str, status: u16, content: String) -> (r: S3AccessResult<String>)
    ensures
        status == STATUS_OK ==> r is Ok && r->Ok_0@ == content@,
        status != STATUS_OK ==> r is Err && r->Err_0 is Load && r->Err_0->Load_0@ == filename@,
{
    if status == STATUS_OK {
        Ok(content)
    } else {
        Err(S3AccessError::Load(String::from_str(filename)))
    }
}

/// The outcome of saving `filename`: done where the store answered with
/// status 200, else a save error naming the file.
pub fn save_outcome(filename: &str, status: u16) -> (r: S3AccessResult<()>)
    ensures
        status == STATUS_OK ==> r is Ok,
        status != STATUS_OK ==> r is Err && r->Err_0 is Save && r->Err_0->Save_0@ == filename@,
{
    if status == STATUS_OK {
        Ok(())
    } else {
        Err(S3AccessError::Save(String::from_str(filename)))
    }
}

} // verus!
