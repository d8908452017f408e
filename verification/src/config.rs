//! Module selection: the fixed categorical order in which enabled display
//! modules are arranged, independent of any completion order.

use vstd::prelude::*;
use vstd::string::*;

verus! {

/// The fixed categorical order of the display modules: branding first, then
/// system information, temperature, and storage.
pub open spec fn module_order() -> Seq<Seq<char>> {
    seq![
        "android-logo-small"@,
        "android-logo"@,
        "termux-banner"@,
        "sysinfo"@,
        "uptime"@,
        "android-temp"@,
        "disk-space"@,
    ]
}

/// The members of `order`, in order, that occur in `en`.
pub open spec fn ordered_selection(order: Seq<Seq<char>>, en: Seq<Seq<char>>) -> Seq<Seq<char>>
    decreases order.len(),
{
    if order.len() == 0 {
        Seq::<Seq<char>>::empty()
    } else {
        let rest = ordered_selection(order.drop_first(), en);
        if en.contains(order[0]) {
            seq![order[0]] + rest
        } else {
            rest
        }
    }
}

proof fn lemma_selection_push(order: Seq<Seq<char>>, en: Seq<Seq<char>>, x: Seq<char>)
    ensures
        ordered_selection(order.push(x), en) == ordered_selection(order, en) + (if en.contains(x) {
            seq![x]
        } else {
            Seq::<Seq<char>>::empty()
        }),
    decreases order.len(),
{
    let q = order.push(x);
    if order.len() == 0 {
        assert(q[0] == x);
        assert(q.drop_first() =~= Seq::<Seq<char>>::empty());
        assert(ordered_selection(Seq::<Seq<char>>::empty(), en) == Seq::<Seq<char>>::empty());
        assert(ordered_selection(order, en) == Seq::<Seq<char>>::empty());
        if en.contains(x) {
            assert(ordered_selection(q, en) =~= ordered_selection(order, en) + seq![x]);
        } else {
            assert(ordered_selection(q, en) =~= ordered_selection(order, en));
        }
    } else {
        lemma_selection_push(order.drop_first(), en, x);
        assert(q.drop_first() =~= order.drop_first().push(x));
        assert(q[0] == order[0]);
        if en.contains(order[0]) {
            assert(seq![order[0]] + (ordered_selection(order.drop_first(), en) + (if en.contains(x) {
                seq![x]
            } else {
                Seq::<Seq<char>>::empty()
            })) =~= (seq![order[0]] + ordered_selection(order.drop_first(), en)) + (if en.contains(
                x,
            ) {
                seq![x]
            } else {
                Seq::<Seq<char>>::empty()
            }));
        }
    }
}

fn contains_name(v: &Vec<String>, name: &String) -> (r: bool)
    ensures
        r == v.deep_view().contains(name@),
{
    let mut i: usize = 0;
    while i < v.len()
        invariant
            i <= v.len(),
            forall|j: int| 0 <= j < i ==> v.deep_view()[j] != name@,
        decreases v.len() - i,
    {
        proof {
            assert(v.deep_view()[i as int] == v@[i as int]@);
        }
        if v[i] == *name {
            return true;
        }
        i += 1;
    }
    false
}

/// Which display modules a run has enabled, by name.
pub struct Config {
    pub enabled_modules: Vec<String>,
}

impl Config {
    /// A configuration with exactly the given modules enabled.
    pub fn with_modules(enabled_modules: Vec<String>) -> (r: Config)
        ensures
            r.enabled_modules@ == enabled_modules@,
    {
        Config { enabled_modules }
    }

    /// The enabled modules arranged in the fixed categorical order,
    /// regardless of the order they were enabled in.
    pub fn get_enabled_modules(&self) -> (r: Vec<String>)
        ensures
            r.deep_view() == ordered_selection(module_order(), self.enabled_modules.deep_view()),
    {
        let ghost en = self.enabled_modules.deep_view();
        let mut names: Vec<String> = Vec::new();
        names.push(String::from_str("android-logo-small"));
        names.push(String::from_str("android-logo"));
        names.push(String::from_str("termux-banner"));
        names.push(String::from_str("sysinfo"));
        names.push(String::from_str("uptime"));
        names.push(String::from_str("android-temp"));
        names.push(String::from_str("disk-space"));
        proof {
            assert(names.deep_view() =~= module_order());
        }
        let mut out: Vec<String> = Vec::new();
        let mut i: usize = 0;
        proof {
            assert(module_order().subrange(0, 0) =~= Seq::<Seq<char>>::empty());
            assert(out.deep_view() =~= ordered_selection(module_order().subrange(0, 0), en));
        }
        while i < names.len()
            invariant
                i <= names.len(),
                names.deep_view() == module_order(),
                en == self.enabled_modules.deep_view(),
                out.deep_view() == ordered_selection(module_order().subrange(0, i as int), en),
            decreases names.len() - i,
        {
            proof {
                assert(names.deep_view()[i as int] == names@[i as int]@);
                lemma_selection_push(module_order().subrange(0, i as int), en, module_order()[i as int]);
                assert(module_order().subrange(0, i + 1) =~= module_order().subrange(0, i as int).push(
                    module_order()[i as int],
                ));
            }
            let ghost old_dv = out.deep_view();
            if contains_name(&self.enabled_modules, &names[i]) {
                let picked = names[i].clone();
                out.push(picked);
                proof {
                    assert(out.deep_view() =~= old_dv + seq![module_order()[i as int]]);
                }
            }
            i += 1;
        }
        proof {
            assert(module_order().subrange(0, names.len() as int) =~= module_order());
        }
        out
    }
}

} // verus!
