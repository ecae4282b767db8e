//! The dependency trees: what each node of the tree of what a program depends
//! on, and of the tree of what depends on it, says, and which names open
//! below it.
use crate::dependency_graph::{provider_for, resolved};
use crate::models::{AppItem, InstallRole};
use crate::names::{copy_strings, lemma_strictly_sorted_unique, name_views, sorted_unique, strictly_sorted};
use crate::presentation::{classified_text, location_text, package_tree_display_text, package_tree_location, package_tree_text, package_tree_title};
use crate::text::{chars_of, decimal, decimal_chars, join, join_chars, push_chars, push_str, string_of, views};
use vstd::prelude::*;

verus! {

/// What one node of a dependency tree shows: the package it stands for,
/// its title, its location and its status, whether it is shared with other
/// programs, and the names that open below it (none for a leaf).
pub struct TreeNode {
    pub package_name: String,
    pub package_index: Option<usize>,
    pub title: String,
    pub location: String,
    pub status: String,
    pub shared: bool,
    pub children: Vec<String>,
}

pub open spec fn is_first_app(apps: Seq<AppItem>, name: Seq<char>, i: int) -> bool {
    0 <= i < apps.len() && apps[i].name@ == name && forall|j: int| 0 <= j < i ==> apps[j].name@ != name
}

/// The first program named `name`.
pub open spec fn first_app_named(apps: Seq<AppItem>, name: Seq<char>) -> Option<usize> {
    if exists|i: int| is_first_app(apps, name, i) {
        Some((choose|i: int| is_first_app(apps, name, i)) as usize)
    } else {
        None
    }
}

pub fn find_app(apps: &Vec<AppItem>, name: &String) -> (r: Option<usize>)
    ensures
        r == first_app_named(apps@, name@),
{
    let mut i: usize = 0;
    while i < apps.len()
        invariant
            i <= apps@.len(),
            forall|j: int| 0 <= j < i ==> apps@[j].name@ != name@,
        decreases apps@.len() - i,
    {
        if apps[i].name == *name {
            proof {
                assert(is_first_app(apps@, name@, i as int));
                let c = choose|c: int| is_first_app(apps@, name@, c);
                if c < i {
                    assert(apps@[c].name@ != name@);
                }
                if i < c {
                    assert(apps@[i as int].name@ != name@);
                }
            }
            return Some(i);
        }
        i += 1;
    }
    None
}

/// The names, each once, in the order of `str`, of those in `names` other
/// than `except`.
pub open spec fn sorted_names(names: Seq<Seq<char>>, except: Option<Seq<char>>) -> Seq<Seq<char>> {
    choose|l: Seq<Seq<char>>| strictly_sorted(l) && forall|x: Seq<char>| l.contains(x) <==> (names.contains(x) && except != Some(x))
}

proof fn lemma_push_contains(s: Seq<Seq<char>>, x: Seq<char>, y: Seq<char>)
    ensures
        s.push(x).contains(y) <==> (s.contains(y) || x == y),
{
    if s.push(x).contains(y) && !s.contains(y) {
        let k = choose|k: int| 0 <= k < s.push(x).len() && s.push(x)[k] == y;
        if k < s.len() {
            assert(s[k] == y);
        }
    }
    if s.contains(y) {
        let k = choose|k: int| 0 <= k < s.len() && s[k] == y;
        assert(s.push(x)[k] == y);
    }
    if x == y {
        assert(s.push(x)[s.len() as int] == y);
    }
}

/// Whether `name` is one of `names`.
fn contains_name(names: &Vec<String>, name: &String) -> (r: bool)
    ensures
        r == name_views(names@).contains(name@),
{
    let mut found = false;
    let mut p: usize = 0;
    while p < names.len()
        invariant
            p <= names@.len(),
            found == name_views(names@).subrange(0, p as int).contains(name@),
        decreases names@.len() - p,
    {
        proof {
            assert(name_views(names@).subrange(0, p + 1) =~= name_views(names@).subrange(0, p as int).push(names@[p as int]@));
            lemma_push_contains(name_views(names@).subrange(0, p as int), names@[p as int]@, name@);
        }
        if names[p] == *name {
            found = true;
        }
        p += 1;
    }
    proof {
        assert(name_views(names@).subrange(0, names@.len() as int) =~= name_views(names@));
    }
    found
}

/// The names of `names`, each once, in order, other than `except` (when given).
fn sorted_without(names: &Vec<String>, except: Option<&String>) -> (r: Vec<String>)
    ensures
        name_views(r@) == sorted_names(name_views(names@), match except {
            Some(e) => Some(e@),
            None => None,
        }),
{
    let ghost ex: Option<Seq<char>> = match except {
        Some(e) => Some(e@),
        None => None,
    };
    let mut kept: Vec<String> = Vec::new();
    let mut i: usize = 0;
    while i < names.len()
        invariant
            i <= names@.len(),
            ex == match except {
                Some(e) => Some(e@),
                None => None::<Seq<char>>,
            },
            forall|x: Seq<char>| #[trigger] name_views(kept@).contains(x) <==> (name_views(names@).subrange(0, i as int).contains(x) && ex != Some(x)),
            forall|x: Seq<char>| #[trigger] name_views(names@).subrange(0, i as int).contains(x) && ex != Some(x) ==> name_views(kept@).contains(x),
        decreases names@.len() - i,
    {
        let ghost before = name_views(kept@);
        let ghost sub_old = name_views(names@).subrange(0, i as int);
        let ghost xi = names@[i as int]@;
        let skip = match except {
            Some(e) => names[i] == *e,
            None => false,
        };
        proof {
            assert(skip == (ex == Some(xi)));
        }
        if !skip {
            kept.push(names[i].clone());
            proof {
                assert(name_views(kept@) =~= before.push(xi));
            }
        }
        proof {
            let sub = name_views(names@).subrange(0, i + 1);
            assert(sub =~= sub_old.push(xi));
            assert forall|x: Seq<char>| #[trigger] name_views(kept@).contains(x) <==> (sub.contains(x) && ex != Some(x)) by {
                lemma_push_contains(sub_old, xi, x);
                if !skip {
                    lemma_push_contains(before, xi, x);
                }
            }
            assert forall|x: Seq<char>| #[trigger] sub.contains(x) && ex != Some(x) implies name_views(kept@).contains(x) by {
                lemma_push_contains(sub_old, xi, x);
                if !skip {
                    lemma_push_contains(before, xi, x);
                }
            }
        }
        i += 1;
    }
    proof {
        assert(name_views(names@).subrange(0, names@.len() as int) =~= name_views(names@));
    }
    let out = sorted_unique(kept);
    proof {
        let l = sorted_names(name_views(names@), ex);
        assert(strictly_sorted(name_views(out@)) && forall|x: Seq<char>| name_views(out@).contains(x) <==> (name_views(names@).contains(x) && ex != Some(x)));
        assert(strictly_sorted(l) && forall|x: Seq<char>| l.contains(x) <==> (name_views(names@).contains(x) && ex != Some(x)));
        lemma_strictly_sorted_unique(name_views(out@), l);
    }
    out
}

/// The names a node of the tree of what a program depends on is titled by:
/// the name it was reached by, and the package that provides it when that
/// differs.
pub open spec fn via_text(dep: Seq<char>, provider: Seq<char>) -> Seq<char> {
    if provider != dep { dep + " [via "@ + provider + "]"@ } else { dep }
}

/// At most the first three of `names`.
pub open spec fn first_three(names: Seq<Seq<char>>) -> Seq<Seq<char>> {
    if names.len() <= 3 { names } else { names.take(3) }
}

/// Whether a dependency goes with the program that uses it: exclusive when
/// no other program requires it, else shared, with how many programs
/// require it and the first three others by name.
pub open spec fn sharing_summary(required_by: nat, others: Seq<Seq<char>>) -> Seq<char> {
    if others.len() == 0 {
        "Exclusive (Will be uninstalled with -Rns)"@
    } else {
        "Shared by "@ + decimal(required_by) + " apps ("@ + join(first_three(others), ", "@) + ")"@
    }
}

/// The node for `dep_name`, reached from `parent` at `depth` below the top
/// of the tree, on the path `path` of packages above it; none at or below
/// `max_depth`. It stands for the package that provides the name; its title
/// and location are that package's (the name alone and `path unavailable`
/// when none is installed); its status says whether the package goes with
/// `parent`; what the package depends on opens below it unless the package
/// is already on the path or the next level reaches `max_depth`.
pub fn dependency_tree_node(
    apps: &Vec<AppItem>,
    provides: &Vec<(String, String)>,
    dep_name: &String,
    parent: &String,
    depth: usize,
    max_depth: usize,
    path: &Vec<String>,
) -> (r: Option<TreeNode>)
    ensures
        depth >= max_depth ==> r is None,
        depth < max_depth ==> (r matches Some(n) && {
            let provider = resolved(provides@, dep_name@);
            let idx = first_app_named(apps@, provider);
            let name = via_text(dep_name@, provider);
            let users = match idx {
                Some(i) => apps@[i as int].required_by@,
                None => Seq::empty(),
            };
            let others = sorted_names(name_views(users), Some(parent@));
            &&& n.package_name@ == provider
            &&& n.package_index == idx
            &&& n.title@ == match idx {
                Some(i) => classified_text(apps@[i as int], name),
                None => name,
            }
            &&& n.location@ == match idx {
                Some(i) => location_text(apps@[i as int]),
                None => "path unavailable"@,
            }
            &&& n.shared == (others.len() > 0)
            &&& n.status@ == sharing_summary(users.len(), others)
            &&& name_views(n.children@) == match idx {
                Some(i) => if name_views(path@).contains(provider) || depth + 1 >= max_depth {
                    Seq::empty()
                } else {
                    name_views(apps@[i as int].depends_on@)
                },
                None => Seq::<Seq<char>>::empty(),
            }
        }),
{
    if depth >= max_depth {
        return None;
    }
    let provider = provider_for(provides, dep_name);
    let idx = find_app(apps, &provider);
    let mut nv = chars_of(dep_name.as_str());
    if provider != *dep_name {
        push_str(&mut nv, " [via ");
        push_str(&mut nv, provider.as_str());
        push_str(&mut nv, "]");
    }
    let name = string_of(&nv);
    let empty: Vec<String> = Vec::new();
    let users: &Vec<String> = match idx {
        Some(i) => &apps[i].required_by,
        None => &empty,
    };
    let others = sorted_without(users, Some(parent));
    let status = if others.len() == 0 {
        string_of(&chars_of("Exclusive (Will be uninstalled with -Rns)"))
    } else {
        let shown_count = if others.len() <= 3 { others.len() } else { 3 };
        let mut shown: Vec<Vec<char>> = Vec::new();
        let mut k: usize = 0;
        while k < shown_count
            invariant
                k <= shown_count,
                shown_count <= others@.len(),
                views(shown@) == name_views(others@).take(k as int),
            decreases shown_count - k,
        {
            let ghost before = views(shown@);
            shown.push(chars_of(others[k].as_str()));
            proof {
                assert(views(shown@) =~= before.push(others@[k as int]@));
                assert(name_views(others@).take(k + 1) =~= name_views(others@).take(k as int).push(others@[k as int]@));
            }
            k += 1;
        }
        proof {
            if others@.len() <= 3 {
                assert(name_views(others@).take(k as int) =~= name_views(others@));
            }
        }
        let mut v = chars_of("Shared by ");
        push_chars(&mut v, &decimal_chars(users.len()));
        push_str(&mut v, " apps (");
        push_chars(&mut v, &join_chars(&shown, &chars_of(", ")));
        push_str(&mut v, ")");
        string_of(&v)
    };
    let shared = others.len() > 0;
    let (title, location, children) = match idx {
        Some(i) => {
            let on_path = contains_name(path, &provider);
            let children = if on_path || depth + 1 >= max_depth { Vec::new() } else { copy_strings(&apps[i].depends_on) };
            proof {
                if on_path || depth + 1 >= max_depth {
                    assert(name_views(children@) =~= Seq::<Seq<char>>::empty());
                }
            }
            (package_tree_title(&apps[i], name.as_str()), package_tree_location(&apps[i]), children)
        },
        None => {
            let children: Vec<String> = Vec::new();
            proof {
                assert(name_views(children@) =~= Seq::<Seq<char>>::empty());
            }
            (name.clone(), string_of(&chars_of("path unavailable")), children)
        },
    };
    Some(TreeNode { package_name: provider, package_index: idx, title, location, status, shared, children })
}

/// What a node of the tree of what depends on a program says of the package
/// `package_name`, on the path `path` of packages above it: a cycle when it
/// is on the path, else an explicit root, a package without metadata, an
/// orphan, or how many installed packages require it. Those, in name order,
/// open below it unless it is any of the former.
pub open spec fn reverse_status(cycle: bool, explicit: bool, known: bool, users: nat) -> Seq<char> {
    if cycle {
        "Cycle already shown on this path"@
    } else if explicit {
        "Explicitly installed root"@
    } else if !known {
        "Installed package metadata unavailable"@
    } else if users == 0 {
        "Orphaned dependency"@
    } else {
        "Required by "@ + decimal(users) + " installed packages"@
    }
}

pub fn reverse_tree_node(apps: &Vec<AppItem>, package_name: &String, path: &Vec<String>) -> (n: TreeNode)
    ensures
        ({
            let idx = first_app_named(apps@, package_name@);
            let cycle = name_views(path@).contains(package_name@);
            let explicit = match idx {
                Some(i) => apps@[i as int].install_role == InstallRole::Explicit,
                None => false,
            };
            let users = match idx {
                Some(i) => sorted_names(name_views(apps@[i as int].required_by@), None),
                None => Seq::empty(),
            };
            &&& n.package_name@ == package_name@
            &&& n.package_index == idx
            &&& n.title@ == match idx {
                Some(i) => classified_text(apps@[i as int], package_name@),
                None => package_name@,
            }
            &&& n.location@ == match idx {
                Some(i) => location_text(apps@[i as int]),
                None => "path unavailable"@,
            }
            &&& n.shared == (users.len() > 1)
            &&& n.status@ == reverse_status(cycle, explicit, idx is Some, users.len())
            &&& name_views(n.children@) == if cycle || explicit || idx is None { Seq::empty() } else { users }
        }),
{
    let idx = find_app(apps, package_name);
    let cycle = contains_name(path, package_name);
    let (users, explicit) = match idx {
        Some(i) => (sorted_without(&apps[i].required_by, None), apps[i].install_role.is_explicit()),
        None => {
            let users: Vec<String> = Vec::new();
            proof {
                assert(name_views(users@) =~= Seq::<Seq<char>>::empty());
            }
            (users, false)
        },
    };
    let status = if cycle {
        string_of(&chars_of("Cycle already shown on this path"))
    } else if explicit {
        string_of(&chars_of("Explicitly installed root"))
    } else if idx.is_none() {
        string_of(&chars_of("Installed package metadata unavailable"))
    } else if users.len() == 0 {
        string_of(&chars_of("Orphaned dependency"))
    } else {
        let mut v = chars_of("Required by ");
        push_chars(&mut v, &decimal_chars(users.len()));
        push_str(&mut v, " installed packages");
        string_of(&v)
    };
    let shared = users.len() > 1;
    let (title, location) = match idx {
        Some(i) => (package_tree_title(&apps[i], package_name.as_str()), package_tree_location(&apps[i])),
        None => (package_name.clone(), string_of(&chars_of("path unavailable"))),
    };
    let children = if cycle || explicit || idx.is_none() {
        let none: Vec<String> = Vec::new();
        proof {
            assert(name_views(none@) =~= Seq::<Seq<char>>::empty());
        }
        none
    } else {
        users
    };
    TreeNode { package_name: package_name.clone(), package_index: idx, title, location, status, shared, children }
}

/// The top of the tree of what depends on a program: the program, marked
/// when it is an explicit root.
pub fn reverse_root_text(app: &AppItem) -> (r: String)
    ensures
        r@ == "📦 "@ + package_tree_text(*app, app.name@) + if app.install_role == InstallRole::Explicit { "  •  EXPLICIT ROOT"@ } else { Seq::empty() },
{
    let mut v = chars_of("📦 ");
    push_str(&mut v, package_tree_display_text(app, app.name.as_str()).as_str());
    if app.install_role.is_explicit() {
        push_str(&mut v, "  •  EXPLICIT ROOT");
    }
    string_of(&v)
}

/// What stands below a program that nothing requires.
pub fn reverse_root_note(app: &AppItem) -> (r: String)
    ensures
        r@ == if app.install_role == InstallRole::Explicit {
            "This package is itself an explicitly installed root."@
        } else {
            "No installed package requires this dependency; it is orphaned."@
        },
{
    if app.install_role.is_explicit() {
        string_of(&chars_of("This package is itself an explicitly installed root."))
    } else {
        string_of(&chars_of("No installed package requires this dependency; it is orphaned."))
    }
}

/// The programs that require a program, each once, in name order.
pub fn sorted_users(app: &AppItem) -> (r: Vec<String>)
    ensures
        name_views(r@) == sorted_names(name_views(app.required_by@), None),
{
    sorted_without(&app.required_by, None)
}

} // verus!
