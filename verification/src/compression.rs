use vstd::prelude::*;

verus! {

/// The compression method of an archive entry; its byte in the file is its
/// position in this list.
#[derive(Debug, Copy, Clone, PartialEq, Eq, Structural, PartialOrd)]
pub enum CompressionType {
    NONE,
    LZMA,
    LZMA2,
    GZIP,
    BZIP2,
}

/// The byte that stands for a compression method in an archive.
pub open spec fn compression_code(c: CompressionType) -> u8 {
    match c {
        CompressionType::NONE => 0,
        CompressionType::LZMA => 1,
        CompressionType::LZMA2 => 2,
        CompressionType::GZIP => 3,
        CompressionType::BZIP2 => 4,
    }
}

/// The method that a byte stands for, if any.
pub open spec fn compression_from_code(b: u8) -> Option<CompressionType> {
    if b == 0 {
        Some(CompressionType::NONE)
    } else if b == 1 {
        Some(CompressionType::LZMA)
    } else if b == 2 {
        Some(CompressionType::LZMA2)
    } else if b == 3 {
        Some(CompressionType::GZIP)
    } else if b == 4 {
        Some(CompressionType::BZIP2)
    } else {
        None
    }
}

/// The upper-case name of a compression method.
pub open spec fn compression_name(c: CompressionType) -> Seq<char> {
    match c {
        CompressionType::NONE => "NONE"@,
        CompressionType::LZMA => "LZMA"@,
        CompressionType::LZMA2 => "LZMA2"@,
        CompressionType::GZIP => "GZIP"@,
        CompressionType::BZIP2 => "BZIP2"@,
    }
}

/// The method that a name stands for, if any.
pub open spec fn compression_from_name(s: Seq<char>) -> Option<CompressionType> {
    if s == "NONE"@ {
        Some(CompressionType::NONE)
    } else if s == "LZMA"@ {
        Some(CompressionType::LZMA)
    } else if s == "LZMA2"@ {
        Some(CompressionType::LZMA2)
    } else if s == "GZIP"@ {
        Some(CompressionType::GZIP)
    } else if s == "BZIP2"@ {
        Some(CompressionType::BZIP2)
    } else {
        None
    }
}

impl CompressionType {
    /// The method's upper-case name.
    pub fn name(&self) -> (r: &'static str)
        ensures
            r@ == compression_name(*self),
    {
        match self {
            CompressionType::NONE => "NONE",
            CompressionType::LZMA => "LZMA",
            CompressionType::LZMA2 => "LZMA2",
            CompressionType::GZIP => "GZIP",
            CompressionType::BZIP2 => "BZIP2",
        }
    }

    /// The method's byte in an archive.
    pub fn code(&self) -> (r: u8)
        ensures
            r == compression_code(*self),
    {
        match self {
            CompressionType::NONE => 0,
            CompressionType::LZMA => 1,
            CompressionType::LZMA2 => 2,
            CompressionType::GZIP => 3,
            CompressionType::BZIP2 => 4,
        }
    }
}

/// Whether two string slices hold the same characters.
fn str_equals(a: &str, b: &str) -> (r: bool)
    ensures
        r == (a@ == b@),
{
    a.to_owned() == b.to_owned()
}

impl TryFrom<u8> for CompressionType {
    type Error = ();

    fn try_from(value: u8) -> (r: Result<Self, ()>) {
        if value == 0 {
            Ok(CompressionType::NONE)
        } else if value == 1 {
            Ok(CompressionType::LZMA)
        } else if value == 2 {
            Ok(CompressionType::LZMA2)
        } else if value == 3 {
            Ok(CompressionType::GZIP)
        } else if value == 4 {
            Ok(CompressionType::BZIP2)
        } else {
            Err(())
        }
    }
}

impl vstd::std_specs::convert::TryFromSpecImpl<u8> for CompressionType {
    open spec fn obeys_try_from_spec() -> bool {
        true
    }

    open spec fn try_from_spec(v: u8) -> Result<Self, ()> {
        match compression_from_code(v) {
            Some(c) => Ok(c),
            None => Err(()),
        }
    }
}

impl<'a> TryFrom<&'a str> for CompressionType {
    type Error = ();

    fn try_from(value: &'a str) -> (r: Result<Self, ()>) {
        if str_equals(value, "NONE") {
            Ok(CompressionType::NONE)
        } else if str_equals(value, "LZMA") {
            Ok(CompressionType::LZMA)
        } else if str_equals(value, "LZMA2") {
            Ok(CompressionType::LZMA2)
        } else if str_equals(value, "GZIP") {
            Ok(CompressionType::GZIP)
        } else if str_equals(value, "BZIP2") {
            Ok(CompressionType::BZIP2)
        } else {
            Err(())
        }
    }
}

impl<'a> vstd::std_specs::convert::TryFromSpecImpl<&'a str> for CompressionType {
    open spec fn obeys_try_from_spec() -> bool {
        true
    }

    open spec fn try_from_spec(v: &'a str) -> Result<Self, ()> {
        match compression_from_name(v@) {
            Some(c) => Ok(c),
            None => Err(()),
        }
    }
}

/// Every method's byte stands for that method again.
pub proof fn lemma_code_roundtrip(c: CompressionType)
    ensures
        compression_from_code(compression_code(c)) == Some(c),
{
}

/// Every method's name stands for that method again.
pub proof fn lemma_name_roundtrip(c: CompressionType)
    ensures
        compression_from_name(compression_name(c)) == Some(c),
{
    reveal_strlit("NONE");
    reveal_strlit("LZMA");
    reveal_strlit("LZMA2");
    reveal_strlit("GZIP");
    reveal_strlit("BZIP2");
    assert("LZMA"@[0] != "NONE"@[0]);
    assert("LZMA2"@.len() != "NONE"@.len() && "LZMA2"@.len() != "LZMA"@.len());
    assert("GZIP"@[0] != "NONE"@[0] && "GZIP"@[0] != "LZMA"@[0]);
    assert("BZIP2"@[0] != "NONE"@[0] && "BZIP2"@[0] != "LZMA"@[0] && "BZIP2"@[0] != "LZMA2"@[0]);
}

/// Each method's byte in an archive is its position in the declaration,
/// counting from zero: the bytes rise in the order NONE, LZMA, LZMA2, GZIP,
/// BZIP2 and stay below five. A byte stands for a method exactly when it is
/// that method's byte, so bytes from five up stand for none.
pub proof fn law_codes_follow_declaration()
    ensures
        compression_code(CompressionType::NONE) < compression_code(CompressionType::LZMA)
            < compression_code(CompressionType::LZMA2) < compression_code(CompressionType::GZIP)
            < compression_code(CompressionType::BZIP2) < 5,
        forall|b: u8, c: CompressionType|
            #![trigger compression_from_code(b), compression_code(c)]
            compression_from_code(b) == Some(c) <==> compression_code(c) == b,
        forall|b: u8| #[trigger] compression_from_code(b) is Some <==> b < 5,
{
    assert forall|b: u8, c: CompressionType|
        #![trigger compression_from_code(b), compression_code(c)]
        compression_from_code(b) == Some(c) <==> compression_code(c) == b by {
        match c {
            CompressionType::NONE => {},
            CompressionType::LZMA => {},
            CompressionType::LZMA2 => {},
            CompressionType::GZIP => {},
            CompressionType::BZIP2 => {},
        }
    }
}

} // verus!
