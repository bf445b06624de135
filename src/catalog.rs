use vstd::prelude::*;
use crate::model::Remote;
use crate::text::{opt_chars, opt_str_chars, same_text};

verus! {

/// The type code that a `config dump` text gives to the named remote, if the
/// text is a JSON object whose entry for that name has a string `type`.
pub uninterp spec fn dump_type_code(dump: Seq<char>, name: Seq<char>) -> Option<Seq<char>>;

/// Relies on serde_json::from_str (into a `Value`), `Value::get` and
/// `Value::as_str`: the result depends on the two texts alone.
#[verifier::external_body]
fn remote_type_code(dump: &str, name: &str) -> (r: Option<String>)
    ensures
        match r {
            None => dump_type_code(dump@, name@) is None,
            Some(c) => dump_type_code(dump@, name@) == Some(c@),
        },
{
    let config = serde_json::from_str::<serde_json::Value>(dump).ok()?;
    config.get(name)?.get("type")?.as_str().map(|t| t.to_string())
}

/// The label shown for a backend type code; unknown codes stand for themselves.
pub open spec fn provider_label_of(code: Seq<char>) -> Seq<char> {
    if code == "drive"@ {
        "Google Drive"@
    } else if code == "onedrive"@ {
        "OneDrive"@
    } else if code == "dropbox"@ {
        "Dropbox"@
    } else if code == "s3"@ {
        "Amazon S3"@
    } else {
        code
    }
}

/// The label for a type code that may be missing.
pub open spec fn provider_of_code(code: Option<Seq<char>>) -> Seq<char> {
    match code {
        None => "Unknown"@,
        Some(c) => provider_label_of(c),
    }
}

/// The provider of the named remote according to a config dump, if one was had.
pub open spec fn provider_of(dump: Option<Seq<char>>, name: Seq<char>) -> Seq<char> {
    match dump {
        None => "Unknown"@,
        Some(d) => provider_of_code(dump_type_code(d, name)),
    }
}

/// Maps a backend type code to its human-readable provider label.
pub fn provider_label(code: &str) -> (r: String)
    ensures
        r@ == provider_label_of(code@),
{
    if same_text(code, "drive") {
        proof { reveal_strlit("drive"); }
        "Google Drive".to_string()
    } else if same_text(code, "onedrive") {
        "OneDrive".to_string()
    } else if same_text(code, "dropbox") {
        "Dropbox".to_string()
    } else if same_text(code, "s3") {
        "Amazon S3".to_string()
    } else {
        code.to_string()
    }
}

/// The provider label for a type code read from the config dump; no code
/// gives `"Unknown"`.
pub fn provider_from_code(code: Option<String>) -> (r: String)
    ensures
        r@ == provider_of_code(opt_chars(code)),
{
    match code {
        None => "Unknown".to_string(),
        Some(c) => provider_label(c.as_str()),
    }
}

/// The provider of the named remote, read from the output of `config dump`.
/// A missing dump, a dump that does not parse, or a remote without a string
/// `type` gives `"Unknown"`.
pub fn provider_for(dump: Option<&str>, name: &str) -> (r: String)
    ensures
        r@ == provider_of(opt_str_chars(dump), name@),
{
    match dump {
        None => "Unknown".to_string(),
        Some(d) => provider_from_code(remote_type_code(d, name)),
    }
}

/// The catalog entry of a remote: its provider comes from the config dump, and
/// every remote is reported as connected.
pub fn remote_for(name: String, dump: Option<String>) -> (r: Remote)
    ensures
        r.name == name,
        r.provider@ == provider_of(opt_chars(dump), name@),
        r.status@ == "Connected"@,
{
    let provider = match &dump {
        None => provider_for(None, name.as_str()),
        Some(d) => provider_for(Some(d.as_str()), name.as_str()),
    };
    Remote { name, provider, status: "Connected".to_string() }
}


/// Accepts a new remote's settings; nothing is stored, and it always succeeds.
pub fn config_create(
    name: String,
    provider: String,
    params: std::collections::HashMap<String, String>,
) -> (r: Result<(), String>)
    ensures
        r is Ok,
{
    Ok(())
}

/// Accepts a request to reconnect a remote; it always succeeds.
pub fn config_reconnect(name: String) -> (r: Result<(), String>)
    ensures
        r is Ok,
{
    Ok(())
}

/// Accepts a request to delete a remote; it always succeeds.
pub fn config_delete(name: String) -> (r: Result<(), String>)
    ensures
        r is Ok,
{
    Ok(())
}


/// When the config dump could not be had, every remote's provider is
/// `"Unknown"`, whatever its name.
pub proof fn lemma_failed_dump_unknown(name: Seq<char>)
    ensures
        provider_of(None, name) == "Unknown"@,
{
}

/// Known type codes map to their labels whatever else is configured, and any
/// other code stands for itself.
pub proof fn lemma_provider_label_fixed(code: Seq<char>)
    ensures
        code == "s3"@ ==> provider_label_of(code) == "Amazon S3"@,
        code == "drive"@ ==> provider_label_of(code) == "Google Drive"@,
        code != "drive"@ && code != "onedrive"@ && code != "dropbox"@ && code != "s3"@
            ==> provider_label_of(code) == code,
{
    reveal_strlit("s3");
    reveal_strlit("drive");
    reveal_strlit("onedrive");
    reveal_strlit("dropbox");
    if code == "s3"@ {
        assert(code.len() == 2);
        assert(code != "drive"@ && code != "onedrive"@ && code != "dropbox"@);
    }
}

} // verus!
