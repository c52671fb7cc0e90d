//! Deriving a platform label from a client's user-agent line: plain
//! substring matching against a fixed set of operating-system markers, with
//! an explicit unknown label for anything unrecognized.

use vstd::prelude::*;

verus! {

/// The needle occurs in the haystack starting at position `k`.
pub open spec fn match_at(hay: Seq<char>, needle: Seq<char>, k: int) -> bool {
    &&& 0 <= k
    &&& k + needle.len() <= hay.len()
    &&& forall|l: int| 0 <= l < needle.len() ==> hay[k + l] == needle[l]
}

/// The needle occurs somewhere in the haystack.
pub open spec fn contains_seq(hay: Seq<char>, needle: Seq<char>) -> bool {
    exists|k: int| match_at(hay, needle, k)
}

/// Whether `needle` occurs as a contiguous run of characters in `hay`.
pub fn str_contains(hay: &str, needle: &str) -> (res: bool)
    ensures
        res == contains_seq(hay@, needle@),
{
    let hay_len = hay.unicode_len();
    let needle_len = needle.unicode_len();
    if needle_len > hay_len {
        proof {
            assert forall|k: int| !match_at(hay@, needle@, k) by {}
        }
        return false;
    }
    let mut k: usize = 0;
    while k <= hay_len - needle_len
        invariant
            hay_len == hay@.len(),
            needle_len == needle@.len(),
            needle_len <= hay_len,
            k <= hay_len - needle_len + 1,
            forall|q: int| 0 <= q < k ==> !match_at(hay@, needle@, q),
        decreases hay_len - needle_len - k + 1,
    {
        let mut l: usize = 0;
        let mut mismatch = false;
        while l < needle_len && !mismatch
            invariant
                hay_len == hay@.len(),
                needle_len == needle@.len(),
                k + needle_len <= hay_len,
                l <= needle_len,
                !mismatch ==> forall|p: int| 0 <= p < l ==> hay@[k + p] == needle@[p],
                mismatch ==> !match_at(hay@, needle@, k as int),
            decreases needle_len - l + if mismatch {
                0int
            } else {
                1int
            },
        {
            if hay.get_char(k + l) != needle.get_char(l) {
                mismatch = true;
                proof {
                    assert(hay@[k as int + l as int] != needle@[l as int]);
                }
            } else {
                l = l + 1;
            }
        }
        if !mismatch {
            proof {
                assert(match_at(hay@, needle@, k as int));
            }
            return true;
        }
        k = k + 1;
    }
    proof {
        assert forall|q: int| !match_at(hay@, needle@, q) by {
            if 0 <= q <= hay@.len() - needle@.len() {
                assert(q < k);
            }
        }
    }
    false
}

/// The platform label a user-agent line maps to: the first matching marker
/// of a fixed set, or the unknown label. Mobile markers are tried before
/// the desktop ones whose names their lines also carry.
pub open spec fn os_label(ua: Seq<char>) -> Seq<char> {
    if contains_seq(ua, "Windows"@) {
        "Windows"@
    } else if contains_seq(ua, "Android"@) {
        "Android"@
    } else if contains_seq(ua, "iPhone"@) || contains_seq(ua, "iPad"@) {
        "iOS"@
    } else if contains_seq(ua, "Mac OS X"@) {
        "Mac OS X"@
    } else if contains_seq(ua, "Linux"@) {
        "Linux"@
    } else {
        "unknown"@
    }
}

/// The label an absent or unrecognizable user-agent line maps to.
pub fn unknown_label() -> (res: String)
    ensures
        res@ == "unknown"@,
{
    String::from_str("unknown")
}

/// Maps a user-agent line to its platform label.
pub fn platform_label(user_agent: &str) -> (res: String)
    ensures
        res@ == os_label(user_agent@),
{
    if str_contains(user_agent, "Windows") {
        String::from_str("Windows")
    } else if str_contains(user_agent, "Android") {
        String::from_str("Android")
    } else if str_contains(user_agent, "iPhone") || str_contains(user_agent, "iPad") {
        String::from_str("iOS")
    } else if str_contains(user_agent, "Mac OS X") {
        String::from_str("Mac OS X")
    } else if str_contains(user_agent, "Linux") {
        String::from_str("Linux")
    } else {
        String::from_str("unknown")
    }
}

} // verus!
