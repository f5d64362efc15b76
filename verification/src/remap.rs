//! The key namespace rule: a raw key that starts with the sentinel `"NT:"`
//! keeps the remainder verbatim; any other key is prefixed with the literal
//! `"/AdvantageKit"`, with no separator inserted.
use vstd::prelude::*;
use vstd::string::StrSliceExecFns;
use vstd::string::StringExecFns;

verus! {

/// True when the key begins with the exact three characters `N`, `T`, `:`.
pub open spec fn has_sentinel(k: Seq<char>) -> bool {
    k.len() >= 3 && k[0] == 'N' && k[1] == 'T' && k[2] == ':'
}

/// The remap rule on character sequences: strip the three sentinel
/// characters, or else prepend the fixed namespace literal.
pub open spec fn spec_remap(k: Seq<char>) -> Seq<char> {
    if has_sentinel(k) {
        k.skip(3)
    } else {
        "/AdvantageKit"@ + k
    }
}

/// Rewrites one raw key into its externally visible namespace.
/// Total, deterministic and pure.
pub fn remap(raw: &str) -> (r: String)
    ensures
        r@ == spec_remap(raw@),
{
    let n = raw.unicode_len();
    if n >= 3 && raw.get_char(0) == 'N' && raw.get_char(1) == 'T' && raw.get_char(2) == ':' {
        let rest = raw.substring_char(3, n);
        proof {
            assert(rest@ =~= raw@.skip(3));
        }
        rest.to_owned()
    } else {
        let mut out: String = "/AdvantageKit".to_owned();
        out.append(raw);
        out
    }
}

/// Every key that does not carry the sentinel maps under `"/AdvantageKit"`:
/// the result starts with exactly that prefix and continues with the raw key.
pub proof fn lemma_remap_namespaces(k: Seq<char>)
    ensures
        !has_sentinel(k) ==> spec_remap(k).len() == "/AdvantageKit"@.len() + k.len()
            && spec_remap(k).take("/AdvantageKit"@.len() as int) == "/AdvantageKit"@
            && spec_remap(k).skip("/AdvantageKit"@.len() as int) == k,
        has_sentinel(k) ==> spec_remap(k) == k.skip(3),
{
    if !has_sentinel(k) {
        assert(spec_remap(k).take("/AdvantageKit"@.len() as int) =~= "/AdvantageKit"@);
        assert(spec_remap(k).skip("/AdvantageKit"@.len() as int) =~= k);
    }
}

} // verus!
