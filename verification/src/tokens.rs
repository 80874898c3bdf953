//! The fixed, case-sensitive keyword table: fully-qualified type paths and
//! the short names they are rewritten to. It is an exact-match mapping,
//! shared by every rewrite; one historical key is deliberately misspelled
//! (`core::cmp::PartiaOrd`) and kept for bit-for-bit compatibility.

use vstd::prelude::*;

verus! {

/// The replacement for `p` in the keyword table, if `p` is one of its keys.
pub open spec fn token_spec(p: Seq<char>) -> Option<Seq<char>> {
    if p == "std::io"@ {
        Some("io"@)
    } else if p == "std::sync::mutex::Mutex"@ {
        Some("Mutex"@)
    } else if p == "std::ffi::os_str::OsString"@ {
        Some("OsString"@)
    } else if p == "core::ptr::non_null::NonNull"@ {
        Some("ptr::NonNull"@)
    } else if p == "core::ptr::unique::Unique"@ {
        Some("UniquePtr"@)
    } else if p == "core::ptr::drop_in_place"@ {
        Some("Drop"@)
    } else if p == "core::ops::index::Index"@ {
        Some("Index"@)
    } else if p == "core::ptr"@ {
        Some("ptr"@)
    } else if p == "core::slice"@ {
        Some("slice"@)
    } else if p == "alloc::string::String"@ {
        Some("String"@)
    } else if p == "alloc::vec::Vec"@ {
        Some("Vec"@)
    } else if p == "alloc::raw_vec::RawVec"@ {
        Some("RawVec"@)
    } else if p == "alloc::alloc"@ {
        Some("alloc"@)
    } else if p == "core::alloc"@ {
        Some("alloc"@)
    } else if p == "core::slice::iter::Iter"@ {
        Some("slice::Iter"@)
    } else if p == "core::iter::adapters"@ {
        Some("iter"@)
    } else if p == "core::option::Option"@ {
        Some("Option"@)
    } else if p == "core::convert::Into"@ {
        Some("Into"@)
    } else if p == "core::convert::From"@ {
        Some("From"@)
    } else if p == "core::convert::AsMut"@ {
        Some("AsMut"@)
    } else if p == "core::convert::AsRef"@ {
        Some("AsRef"@)
    } else if p == "core::convert::TryFrom"@ {
        Some("TryFrom"@)
    } else if p == "core::convert::TryInto"@ {
        Some("TryInto"@)
    } else if p == "core::cmp::Eq"@ {
        Some("Eq"@)
    } else if p == "core::cmp::Ord"@ {
        Some("Ord"@)
    } else if p == "core::cmp::PartialEq"@ {
        Some("PartialEq"@)
    } else if p == "core::cmp::PartiaOrd"@ {
        Some("PartiaOrd"@)
    } else if p == "alloc::boxed::Box"@ {
        Some("Box"@)
    } else if p == "alloc::borrow::ToOwned"@ {
        Some("ToOwned"@)
    } else if p == "core::clone::Clone"@ {
        Some("Clone"@)
    } else if p == "core::default::Default"@ {
        Some("Default"@)
    } else if p == "core::ops::function::Fn"@ {
        Some("Fn"@)
    } else if p == "core::ops::function::FnOnce"@ {
        Some("FnOnce"@)
    } else if p == "core::ops::function::FnMut"@ {
        Some("FnMut"@)
    } else if p == "core::iter::traits::double_ended::DoubleEndedIterator"@ {
        Some("DoubleEndedIterator"@)
    } else if p == "core::iter::traits::exact_size::ExactSizeIterator"@ {
        Some("ExactSizeIterator"@)
    } else if p == "core::iter::traits::collect::IntoIterator"@ {
        Some("collect::IntoIterator"@)
    } else if p == "core::iter::traits::collect::Extend"@ {
        Some("Extend"@)
    } else if p == "core::iter::traits::iterator::Iterator"@ {
        Some("Iterator"@)
    } else if p == "core::marker::Send"@ {
        Some("Send"@)
    } else if p == "core::marker::Sized"@ {
        Some("Sized"@)
    } else if p == "core::marker::Sync"@ {
        Some("Sync"@)
    } else if p == "core::marker::Unpin"@ {
        Some("Unpin"@)
    } else if p == "alloc::vec::spec_extend::SpecExtend"@ {
        Some("Vec::Extend"@)
    } else if p == "core::ops::try_trait::Try"@ {
        Some("Try"@)
    } else {
        None
    }
}

/// Looks `p` up in the keyword table.
pub fn token_lookup(p: &str) -> (r: Option<&'static str>)
    ensures
        match r {
            Some(t) => token_spec(p@) == Some(t@),
            None => token_spec(p@) is None,
        },
{
    if str_eq(p, "std::io") {
        return Some("io");
    }
    if str_eq(p, "std::sync::mutex::Mutex") {
        return Some("Mutex");
    }
    if str_eq(p, "std::ffi::os_str::OsString") {
        return Some("OsString");
    }
    if str_eq(p, "core::ptr::non_null::NonNull") {
        return Some("ptr::NonNull");
    }
    if str_eq(p, "core::ptr::unique::Unique") {
        return Some("UniquePtr");
    }
    if str_eq(p, "core::ptr::drop_in_place") {
        return Some("Drop");
    }
    if str_eq(p, "core::ops::index::Index") {
        return Some("Index");
    }
    if str_eq(p, "core::ptr") {
        return Some("ptr");
    }
    if str_eq(p, "core::slice") {
        return Some("slice");
    }
    if str_eq(p, "alloc::string::String") {
        return Some("String");
    }
    if str_eq(p, "alloc::vec::Vec") {
        return Some("Vec");
    }
    if str_eq(p, "alloc::raw_vec::RawVec") {
        return Some("RawVec");
    }
    if str_eq(p, "alloc::alloc") {
        return Some("alloc");
    }
    if str_eq(p, "core::alloc") {
        return Some("alloc");
    }
    if str_eq(p, "core::slice::iter::Iter") {
        return Some("slice::Iter");
    }
    if str_eq(p, "core::iter::adapters") {
        return Some("iter");
    }
    if str_eq(p, "core::option::Option") {
        return Some("Option");
    }
    if str_eq(p, "core::convert::Into") {
        return Some("Into");
    }
    if str_eq(p, "core::convert::From") {
        return Some("From");
    }
    if str_eq(p, "core::convert::AsMut") {
        return Some("AsMut");
    }
    if str_eq(p, "core::convert::AsRef") {
        return Some("AsRef");
    }
    if str_eq(p, "core::convert::TryFrom") {
        return Some("TryFrom");
    }
    if str_eq(p, "core::convert::TryInto") {
        return Some("TryInto");
    }
    if str_eq(p, "core::cmp::Eq") {
        return Some("Eq");
    }
    if str_eq(p, "core::cmp::Ord") {
        return Some("Ord");
    }
    if str_eq(p, "core::cmp::PartialEq") {
        return Some("PartialEq");
    }
    if str_eq(p, "core::cmp::PartiaOrd") {
        return Some("PartiaOrd");
    }
    if str_eq(p, "alloc::boxed::Box") {
        return Some("Box");
    }
    if str_eq(p, "alloc::borrow::ToOwned") {
        return Some("ToOwned");
    }
    if str_eq(p, "core::clone::Clone") {
        return Some("Clone");
    }
    if str_eq(p, "core::default::Default") {
        return Some("Default");
    }
    if str_eq(p, "core::ops::function::Fn") {
        return Some("Fn");
    }
    if str_eq(p, "core::ops::function::FnOnce") {
        return Some("FnOnce");
    }
    if str_eq(p, "core::ops::function::FnMut") {
        return Some("FnMut");
    }
    if str_eq(p, "core::iter::traits::double_ended::DoubleEndedIterator") {
        return Some("DoubleEndedIterator");
    }
    if str_eq(p, "core::iter::traits::exact_size::ExactSizeIterator") {
        return Some("ExactSizeIterator");
    }
    if str_eq(p, "core::iter::traits::collect::IntoIterator") {
        return Some("collect::IntoIterator");
    }
    if str_eq(p, "core::iter::traits::collect::Extend") {
        return Some("Extend");
    }
    if str_eq(p, "core::iter::traits::iterator::Iterator") {
        return Some("Iterator");
    }
    if str_eq(p, "core::marker::Send") {
        return Some("Send");
    }
    if str_eq(p, "core::marker::Sized") {
        return Some("Sized");
    }
    if str_eq(p, "core::marker::Sync") {
        return Some("Sync");
    }
    if str_eq(p, "core::marker::Unpin") {
        return Some("Unpin");
    }
    if str_eq(p, "alloc::vec::spec_extend::SpecExtend") {
        return Some("Vec::Extend");
    }
    if str_eq(p, "core::ops::try_trait::Try") {
        return Some("Try");
    }
    None
}

/// Character-for-character equality of two string slices.
pub fn str_eq(a: &str, b: &str) -> (r: bool)
    ensures
        r == (a@ == b@),
{
    let an: usize = a.unicode_len();
    let bn: usize = b.unicode_len();
    if an != bn {
        return false;
    }
    let mut i: usize = 0;
    while i < an
        invariant
            i <= an,
            an == a@.len(),
            an == b@.len(),
            forall|j: int| 0 <= j < i ==> a@[j] == b@[j],
        decreases an - i,
    {
        if a.get_char(i) != b.get_char(i) {
            return false;
        }
        i = i + 1;
    }
    proof {
        assert(a@ =~= b@);
    }
    true
}

} // verus!
