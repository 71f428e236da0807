//! Templates: text with placeholders such as `{repo}`.

use crate::text;
use crate::text::{replace, Text};
use vstd::prelude::*;

verus! {

/// The placeholder of the variable `name`.
pub open spec fn placeholder(name: Text) -> Text {
    "{"@ + name + "}"@
}

/// `template` with the placeholder of each variable replaced by the variable's
/// value, one variable after another.
pub open spec fn rendered(template: Text, vars: Seq<(Text, Text)>) -> Text
    decreases vars.len(),
{
    if vars.len() == 0 {
        template
    } else {
        rendered(
            text::replaced(template, placeholder(vars[0].0), vars[0].1),
            vars.drop_first(),
        )
    }
}

/// The names and values of `vars`.
pub open spec fn bindings(vars: Seq<(&str, &str)>) -> Seq<(Text, Text)> {
    vars.map_values(|v: (&str, &str)| (v.0@, v.1@))
}

/// Puts the values of `vars` in the place of their placeholders.
pub fn render(template: &str, vars: &[(&str, &str)]) -> (r: String)
    ensures
        r@ == rendered(template@, bindings(vars@)),
{
    let mut out = template.to_owned();
    let ghost all = bindings(vars@);
    let mut i: usize = 0;
    assert(all.skip(0) =~= all);
    while i < vars.len()
        invariant
            i <= vars.len(),
            all == bindings(vars@),
            rendered(out@, all.skip(i as int)) == rendered(template@, all),
        decreases vars.len() - i,
    {
        let (name, value) = vars[i];
        let hole = "{".to_owned().concat(name).concat("}");
        proof {
            reveal_strlit("{");
            assert(all.skip(i as int)[0] == (name@, value@));
            assert(all.skip(i as int).drop_first() =~= all.skip(i + 1));
        }
        out = replace(out.as_str(), hole.as_str(), value);
        i += 1;
    }
    out
}

} // verus!
