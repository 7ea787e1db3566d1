//! Which names the server accepts for G-code files.
use vstd::prelude::*;
use vstd::string::StringSliceAdditionalSpecFns;

verus! {

/// An ASCII letter or digit, `_` or `.`.
pub open spec fn is_name_byte(b: u8) -> bool {
    (48 <= b <= 57) || (65 <= b <= 90) || (97 <= b <= 122) || b == 95 || b == 46
}

pub open spec fn all_name_bytes(s: Seq<u8>) -> bool {
    forall|i: int| 0 <= i < s.len() ==> is_name_byte(#[trigger] s[i])
}

fn name_bytes_only(s: &[u8]) -> (b: bool)
    ensures
        b == all_name_bytes(s@),
{
    let mut i: usize = 0;
    while i < s.len()
        invariant
            i <= s.len(),
            forall|j: int| 0 <= j < i ==> is_name_byte(#[trigger] s@[j]),
        decreases s.len() - i,
    {
        let c = s[i];
        if !((48 <= c && c <= 57) || (65 <= c && c <= 90) || (97 <= c && c <= 122) || c == 95
            || c == 46) {
            return false;
        }
        i = i + 1;
    }
    true
}

/// Whether a file may be run: its path holds only ASCII letters, digits,
/// `_` and `.` (so it names a file directly inside the G-code directory).
pub fn is_legal_path(path: &str) -> (b: bool)
    ensures
        b == all_name_bytes(path.spec_bytes()),
{
    name_bytes_only(path.as_bytes())
}

/// Whether an uploaded file may take this name: the characters of a legal
/// path, and at most 255 bytes.
pub fn is_legal_file_name(name: &str) -> (b: bool)
    ensures
        b == (all_name_bytes(name.spec_bytes()) && name.spec_bytes().len() <= 255),
{
    let bytes = name.as_bytes();
    name_bytes_only(bytes) && bytes.len() <= 255
}

/// Law: a legal name cannot leave the G-code directory or name anything
/// but a plain file there: it holds no `/`, no `\\`, no blank and no byte
/// outside ASCII, while letters, digits, `_` and `.` are all allowed, and a
/// name is legal exactly when each of its bytes is.
pub proof fn law_name_bytes(s: Seq<u8>, b: u8)
    ensures
        !is_name_byte(0x2Fu8),
        !is_name_byte(0x5Cu8),
        !is_name_byte(0x20u8),
        !is_name_byte(0x3Au8),
        is_name_byte(b) ==> b < 128,
        (0x30 <= b <= 0x39 || 0x41 <= b <= 0x5A || 0x61 <= b <= 0x7A || b == 0x5F || b == 0x2E)
            ==> is_name_byte(b),
        all_name_bytes(s) <==> forall|i: int| 0 <= i < s.len() ==> is_name_byte(#[trigger] s[i]),
        all_name_bytes(s) && s.contains(b) ==> is_name_byte(b),
{
}

} // verus!
