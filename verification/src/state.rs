//! The app's view of its providers: what the dashboard lists, and finding a
//! provider by name.
use vstd::prelude::*;

use crate::provider::ProviderInfo;
use crate::settings::{visible, AppSettings};
use crate::text::{chars_eq_ignore_ascii_case, chars_of, eq_ignore_ascii_case, owned};

verus! {

/// How the dashboard lists a provider: its name, whether its tool is
/// installed, and whether the settings show it.
pub fn provider_info(name: &str, installed: bool, settings: &AppSettings) -> (info: ProviderInfo)
    ensures
        info.name@ == name@,
        info.installed == installed,
        info.enabled == visible(settings.provider_visibility@, name@),
{
    ProviderInfo { name: owned(name), installed, enabled: settings.is_provider_visible(name) }
}

/// The first of `names` that matches `name` ignoring ASCII case.
pub open spec fn first_match(names: Seq<Seq<char>>, name: Seq<char>) -> Option<int>
    decreases names.len(),
{
    if names.len() == 0 {
        None
    } else if eq_ignore_ascii_case(names[0], name) {
        Some(0)
    } else {
        match first_match(names.drop_first(), name) {
            Some(i) => Some(i + 1),
            None => None,
        }
    }
}

/// The names as text.
pub open spec fn name_texts(names: Seq<String>) -> Seq<Seq<char>> {
    names.map_values(|s: String| s@)
}

/// The position of the provider called `name`, ignoring ASCII case: the first
/// such provider.
pub fn find_provider_index(names: &Vec<String>, name: &str) -> (r: Option<usize>)
    ensures
        match r {
            Some(i) => first_match(name_texts(names@), name@) == Some(i as int),
            None => first_match(name_texts(names@), name@) is None,
        },
{
    let wanted = chars_of(name);
    let ghost all = name_texts(names@);
    let mut i: usize = 0;
    proof {
        assert(all.subrange(0, all.len() as int) =~= all);
    }
    while i < names.len()
        invariant
            all == name_texts(names@),
            wanted@ == name@,
            i <= names@.len(),
            first_match(all, name@) == match first_match(all.subrange(i as int, all.len() as int), name@) {
                Some(j) => Some(j + i),
                None => None,
            },
        decreases names@.len() - i,
    {
        proof {
            let rest = all.subrange(i as int, all.len() as int);
            assert(rest[0] == names@[i as int]@);
            assert(rest.drop_first() =~= all.subrange(i + 1, all.len() as int));
        }
        if chars_eq_ignore_ascii_case(&chars_of(names[i].as_str()), &wanted) {
            return Some(i);
        }
        i = i + 1;
    }
    proof {
        assert(all.subrange(i as int, all.len() as int) =~= Seq::<Seq<char>>::empty());
    }
    None
}

/// Finding a provider does not depend on the ASCII case of the name asked for:
/// two names that match ignoring case find the same provider.
pub proof fn law_find_ignores_case(names: Seq<Seq<char>>, a: Seq<char>, b: Seq<char>)
    requires
        eq_ignore_ascii_case(a, b),
    ensures
        first_match(names, a) == first_match(names, b),
    decreases names.len(),
{
    if names.len() > 0 {
        law_find_ignores_case(names.drop_first(), a, b);
        if eq_ignore_ascii_case(names[0], a) {
            assert(eq_ignore_ascii_case(names[0], b));
        }
        if eq_ignore_ascii_case(names[0], b) {
            assert(eq_ignore_ascii_case(names[0], a));
        }
    }
}

} // verus!
