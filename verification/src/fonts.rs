//! The font names offered by the presentation inspector.

use vstd::prelude::*;
use vstd::utf8::{encode_utf8, encode_utf8_decode_utf8};

use crate::natural_order::{compare_bytes, lemma_lexicographic_equal, lexicographic, views, Order};

verus! {

/// A family name reported by the system is offered unless it is empty or
/// hidden (it starts with a dot).
pub open spec fn offered_family(name: Seq<char>) -> bool {
    name.len() > 0 && name[0] != '.'
}

/// The names are in strictly increasing byte order, the order of `String`.
pub open spec fn strictly_ascending(names: Seq<Seq<char>>) -> bool {
    forall|i: int|
        0 <= i < names.len() - 1 ==> #[trigger] lexicographic(
            encode_utf8(names[i]),
            encode_utf8(names[i + 1]),
        ) == Order::Less
}

/// Whether the family name is offered.
fn is_offered_family(name: &str) -> (offered: bool)
    ensures
        offered == offered_family(name@),
{
    name.unicode_len() > 0 && name.get_char(0) != '.'
}

/// Puts `name` into `names`, kept in strictly ascending order, unless it is
/// there already.
fn insert_ascending(names: &mut Vec<String>, name: String)
    requires
        strictly_ascending(views(old(names)@)),
    ensures
        strictly_ascending(views(final(names)@)),
        forall|x: Seq<char>|
            #[trigger] views(final(names)@).contains(x) <==> (views(old(names)@).contains(x) || x
                == name@),
{
    let ghost before = views(names@);
    let mut j: usize = 0;
    while j < names.len()
        invariant
            j <= names.len(),
            views(names@) == before,
            strictly_ascending(before),
            forall|k: int|
                0 <= k < j ==> #[trigger] lexicographic(encode_utf8(before[k]), encode_utf8(name@))
                    == Order::Less,
        ensures
            j <= names.len(),
            views(names@) == before,
            forall|k: int|
                0 <= k < j ==> #[trigger] lexicographic(encode_utf8(before[k]), encode_utf8(name@))
                    == Order::Less,
            j == names.len() || lexicographic(encode_utf8(before[j as int]), encode_utf8(name@))
                != Order::Less,
        decreases names.len() - j,
    {
        let order = compare_bytes(names[j].as_str().as_bytes(), name.as_str().as_bytes());
        proof {
            assert(before[j as int] == names@[j as int]@);
        }
        if order != Order::Less {
            break;
        }
        j = j + 1;
    }
    proof {
        assert(views(names@) == before);
    }
    if j < names.len() {
        let order = compare_bytes(names[j].as_str().as_bytes(), name.as_str().as_bytes());
        if order == Order::Equal {
            proof {
                assert(before[j as int] == names@[j as int]@);
                lemma_lexicographic_equal(encode_utf8(before[j as int]), encode_utf8(name@));
                encode_utf8_decode_utf8(before[j as int]);
                encode_utf8_decode_utf8(name@);
                assert(before.contains(name@));
            }
            return;
        }
        proof {
            assert(before[j as int] == names@[j as int]@);
            assert(lexicographic(encode_utf8(before[j as int]), encode_utf8(name@)) == Order::Greater);
        }
    }
    let ghost inserted = name@;
    names.insert(j, name);
    proof {
        let after = views(names@);
        assert(after =~= before.insert(j as int, inserted));
        if j < before.len() {
            assert(before[j as int] == old(names)@[j as int]@);
            crate::natural_order::lemma_lexicographic_antisymmetric(
                encode_utf8(before[j as int]),
                encode_utf8(inserted),
            );
        }
        assert forall|i: int| 0 <= i < after.len() - 1 implies #[trigger] lexicographic(
            encode_utf8(after[i]),
            encode_utf8(after[i + 1]),
        ) == Order::Less by {
            if i + 1 < j {
                assert(after[i] == before[i] && after[i + 1] == before[i + 1]);
            } else if i + 1 == j {
                assert(after[i] == before[i] && after[i + 1] == inserted);
            } else if i == j {
                assert(after[i] == inserted && after[i + 1] == before[i]);
            } else {
                let m = i - 1;
                assert(after[i] == before[m] && after[i + 1] == before[m + 1]);
            }
        }
        assert forall|x: Seq<char>| #[trigger] after.contains(x) <==> (before.contains(x) || x
            == inserted) by {
            if after.contains(x) {
                let k = choose|k: int| 0 <= k < after.len() && after[k] == x;
                if k < j {
                    assert(before[k] == x);
                } else if k > j {
                    assert(before[k - 1] == x);
                }
            }
            if before.contains(x) {
                let k = choose|k: int| 0 <= k < before.len() && before[k] == x;
                if k < j {
                    assert(after[k] == x);
                } else {
                    assert(after[k + 1] == x);
                }
            }
            if x == inserted {
                assert(after[j as int] == x);
            }
        }
    }
}

/// Monospaced fonts offered whether or not the system reports them.
pub open spec fn fallback_families() -> Seq<Seq<char>> {
    seq!["Andale Mono"@, "Cascadia Mono"@, "Fira Mono"@, "Menlo Nerd Font Mono"@]
}

/// The font names to offer: the family names the system reports for its
/// monospaced faces that are neither empty nor hidden, together with the
/// fallback families, each once, in ascending byte order.
pub fn font_choices(system_families: &Vec<String>) -> (choices: Vec<String>)
    ensures
        strictly_ascending(views(choices@)),
        forall|name: Seq<char>|
            #[trigger] views(choices@).contains(name) <==> ((views(system_families@).contains(name)
                && offered_family(name)) || fallback_families().contains(name)),
{
    let mut choices: Vec<String> = Vec::new();
    let mut i: usize = 0;
    while i < system_families.len()
        invariant
            i <= system_families.len(),
            strictly_ascending(views(choices@)),
            forall|name: Seq<char>|
                #[trigger] views(choices@).contains(name) <==> (exists|k: int|
                    0 <= k < i && system_families@[k]@ == name && offered_family(name)),
        decreases system_families.len() - i,
    {
        let family = &system_families[i];
        if is_offered_family(family.as_str()) {
            let ghost before = views(choices@);
            insert_ascending(&mut choices, family.clone());
            proof {
                assert forall|name: Seq<char>| #[trigger] views(choices@).contains(name) <==> (exists|
                    k: int,
                |
                    0 <= k < i + 1 && system_families@[k]@ == name && offered_family(name)) by {
                    if name == family@ {
                        assert(system_families@[i as int]@ == name);
                    }
                    if before.contains(name) {
                        assert(exists|k: int|
                            0 <= k < i && system_families@[k]@ == name && offered_family(name));
                    }
                }
            }
        } else {
            proof {
                assert forall|name: Seq<char>| #[trigger] views(choices@).contains(name) <==> (exists|
                    k: int,
                |
                    0 <= k < i + 1 && system_families@[k]@ == name && offered_family(name)) by {
                    if exists|k: int|
                        0 <= k < i + 1 && system_families@[k]@ == name && offered_family(name) {
                        let k = choose|k: int|
                            0 <= k < i + 1 && system_families@[k]@ == name && offered_family(name);
                        if k == i {
                            assert(system_families@[i as int]@ == family@);
                        }
                    }
                }
            }
        }
        i = i + 1;
    }
    proof {
        assert forall|name: Seq<char>| #[trigger] views(system_families@).contains(name) implies exists|
            k: int,
        | 0 <= k < i && system_families@[k]@ == name by {
            let k = choose|k: int|
                0 <= k < views(system_families@).len() && views(system_families@)[k] == name;
            assert(system_families@[k]@ == name);
        }
        assert forall|name: Seq<char>|
            (exists|k: int| 0 <= k < i && system_families@[k]@ == name) implies #[trigger] views(
            system_families@,
        ).contains(name) by {
            let k = choose|k: int| 0 <= k < i && system_families@[k]@ == name;
            assert(views(system_families@)[k] == name);
        }
    }
    let ghost from_system = views(choices@);
    insert_ascending(&mut choices, "Andale Mono".to_owned());
    insert_ascending(&mut choices, "Cascadia Mono".to_owned());
    insert_ascending(&mut choices, "Fira Mono".to_owned());
    insert_ascending(&mut choices, "Menlo Nerd Font Mono".to_owned());
    proof {
        assert forall|name: Seq<char>| #[trigger] fallback_families().contains(name) <==> (name
            == "Andale Mono"@ || name == "Cascadia Mono"@ || name == "Fira Mono"@ || name
            == "Menlo Nerd Font Mono"@) by {
            if fallback_families().contains(name) {
                let k = choose|k: int|
                    0 <= k < fallback_families().len() && fallback_families()[k] == name;
            }
            if name == "Andale Mono"@ {
                assert(fallback_families()[0] == name);
            }
            if name == "Cascadia Mono"@ {
                assert(fallback_families()[1] == name);
            }
            if name == "Fira Mono"@ {
                assert(fallback_families()[2] == name);
            }
            if name == "Menlo Nerd Font Mono"@ {
                assert(fallback_families()[3] == name);
            }
        }
    }
    choices
}

} // verus!
