//! Bundle identity extraction.
//!
//! Reads a bundle's metadata descriptor and yields its stable identifier and
//! display name.  An absent descriptor is not an error; a present but
//! unparsable one is, and the caller degrades that bundle to name-only
//! identity.

use vstd::prelude::*;
use vstd::string::StringExecFns;

use crate::fsio::path_exists;
use crate::types::MetadataReadError;

verus! {

#[verifier::external_type_specification]
#[verifier::external_body]
pub struct ExPlistValue(plist::Value);

#[verifier::external_type_specification]
#[verifier::external_body]
pub struct ExPlistDictionary(plist::Dictionary);

#[verifier::external_type_specification]
#[verifier::external_body]
pub struct ExPlistError(plist::Error);

/// Relies on plist::Value::from_file: parses the property-list file at
/// `path`.  What comes back depends on the disk, so nothing is promised.
#[verifier::external_body]
fn plist_from_file(path: &str) -> Result<plist::Value, plist::Error> {
    plist::Value::from_file(path)
}

/// Relies on plist::Value::as_dictionary: the dictionary a value holds, when
/// it is one.
pub assume_specification[ plist::Value::as_dictionary ](v: &plist::Value) -> Option<
    &plist::Dictionary,
>;

/// Relies on plist::Value::as_string: the string a value holds, when it is
/// one.
pub assume_specification[ plist::Value::as_string ](v: &plist::Value) -> Option<&str>;

/// Relies on plist::Dictionary::get: the value stored under `key`, if any.
pub assume_specification<'a>[ plist::Dictionary::get ](
    d: &'a plist::Dictionary,
    key: &str,
) -> Option<&'a plist::Value>;

/// The string stored under `key` in a parsed descriptor, when the descriptor
/// is a dictionary and the value is a string.
fn plist_string_key(v: &plist::Value, key: &str) -> Option<String> {
    match v.as_dictionary() {
        Some(d) => match d.get(key) {
            Some(x) => match x.as_string() {
                Some(s) => Some(String::from_str(s)),
                None => None,
            },
            None => None,
        },
        None => None,
    }
}

/// Combine the extracted fields: the identifier is taken as it stands; the
/// display name prefers the display-name field over the short-name field.
pub fn choose_identity(id: Option<String>, display: Option<String>, short: Option<String>) -> (r: (
    Option<String>,
    Option<String>,
))
    ensures
        r.0 == id,
        r.1 == if display is Some {
            display
        } else {
            short
        },
{
    let name = match display {
        Some(d) => Some(d),
        None => short,
    };
    (id, name)
}

/// Read the identifier and display name from the metadata descriptor at
/// `<bundle>/Contents/Info.plist`.  Returns `(None, None)` when the
/// descriptor is absent; fails only when it is present and unparsable.
pub fn read_info_from_app(path: &str) -> (r: Result<
    (Option<String>, Option<String>),
    MetadataReadError,
>)
    ensures
        r matches Err(e) ==> e.path@ == path@ + "/Contents/Info.plist"@,
{
    let info = String::from_str(path).concat("/Contents/Info.plist");
    if !path_exists(info.as_str()) {
        return Ok((None, None));
    }
    match plist_from_file(info.as_str()) {
        Ok(v) => {
            let id = plist_string_key(&v, "CFBundleIdentifier");
            let display = plist_string_key(&v, "CFBundleDisplayName");
            let short = plist_string_key(&v, "CFBundleName");
            Ok(choose_identity(id, display, short))
        },
        Err(_) => Err(MetadataReadError { path: info }),
    }
}

} // verus!
