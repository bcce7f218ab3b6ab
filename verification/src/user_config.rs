//! The built-in configuration: what the tool assumes when no user
//! configuration file can be read.

use vstd::prelude::*;

use crate::context::Context;
use crate::value::{Value, ValueV};

verus! {

/// The configuration used when none can be loaded: the conventional
/// abbreviation file beside the project, and no extensions.
pub fn get_default_config() -> (r: Context)
    ensures
        r.wf(),
        r@ == Map::<Seq<char>, ValueV>::empty().insert(
            "abbreviation_file"@,
            ValueV::Str(".abv.json"@),
        ).insert("extensions"@, ValueV::Str("None"@)),
{
    let mut c = Context::new();
    let k1: String = "abbreviation_file".to_owned();
    let v1: String = ".abv.json".to_owned();
    let k2: String = "extensions".to_owned();
    let v2: String = "None".to_owned();
    proof {
        reveal_strlit("abbreviation_file");
        reveal_strlit("extensions");
        assert("abbreviation_file"@.len() != "extensions"@.len());
    }
    c.insert_if_absent(k1, Value::Str(v1));
    c.insert_if_absent(k2, Value::Str(v2));
    c
}

/// The default context values handed to every generation run: none.
pub fn get_default_context() -> (r: Context)
    ensures
        r.wf(),
        r@ == Map::<Seq<char>, ValueV>::empty(),
{
    Context::new()
}

} // verus!
