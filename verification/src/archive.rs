//! The archive that carries the records: a container with one entry, whose
//! text is the list of songs.
use crate::error::DatabaseError;
use vstd::prelude::*;

verus! {

#[verifier::external_type_specification]
#[verifier::external_body]
pub struct ExZipError(zip::result::ZipError);

#[verifier::external_type_specification]
#[verifier::external_body]
pub struct ExInvalidPassword(zip::result::InvalidPassword);

/// The text of the entry at a position of the archive that the bytes hold,
/// as `zip` unpacks it with a password. There is none where the bytes are no
/// archive, the archive has no such entry, the entry is packed or encrypted
/// in a way that `zip` does not read, the password is refused, or what comes
/// out is damaged or is not text.
///
/// The password matters only for an entry that is marked as encrypted. Such
/// an entry is decrypted with it, and the check that `zip` can make on a
/// password lets one wrong password in 256 pass; what is then unpacked is
/// still held to the entry's checksum.
pub uninterp spec fn entry_text(archive: Seq<u8>, index: usize, password: Seq<u8>) -> Option<
    Seq<char>,
>;

/// The text of the first entry of the archive, unpacked with the empty
/// password.
pub open spec fn first_entry_text(archive: Seq<u8>) -> Option<Seq<char>> {
    entry_text(archive, 0, Seq::empty())
}

/// `zip::ZipArchive::new` on the bytes, `ZipArchive::by_index_decrypt` for
/// the entry at the position, and the entry read to its end as text. Each
/// of the three can fail, and the second can refuse the password; whether
/// all succeed, and the text, depend on the bytes, the position and the
/// password alone.
#[verifier::external_body]
fn read_entry(bytes: &[u8], index: usize, password: &[u8]) -> (r: Result<
    Result<String, zip::result::InvalidPassword>,
    zip::result::ZipError,
>)
    ensures
        (r is Ok && r->Ok_0 is Ok) <==> entry_text(bytes@, index, password@) is Some,
        r is Ok && r->Ok_0 is Ok ==> entry_text(bytes@, index, password@) == Some(
            r->Ok_0->Ok_0@,
        ),
{
    let mut archive = zip::ZipArchive::new(std::io::Cursor::new(bytes))?;
    let mut entry = match archive.by_index_decrypt(index, password)? {
        Ok(entry) => entry,
        Err(refused) => return Ok(Err(refused)),
    };
    let mut text = String::new();
    std::io::Read::read_to_string(&mut entry, &mut text)?;
    Ok(Ok(text))
}

/// The text of the archive's first entry. An archive that cannot be read,
/// that holds no entry, or whose first entry asks for a password other than
/// the empty one is refused.
pub fn beatstar_zip_text(bytes: &[u8]) -> (r: Result<String, DatabaseError>)
    ensures
        r is Ok <==> first_entry_text(bytes@) is Some,
        r matches Ok(text) ==> first_entry_text(bytes@) == Some(text@),
        r matches Err(e) ==> e == DatabaseError::Archive,
{
    let no_password: Vec<u8> = Vec::new();
    match read_entry(bytes, 0, no_password.as_slice()) {
        Ok(Ok(text)) => Ok(text),
        Ok(Err(_)) => Err(DatabaseError::Archive),
        Err(_) => Err(DatabaseError::Archive),
    }
}

} // verus!
