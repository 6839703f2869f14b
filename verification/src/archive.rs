use vstd::prelude::*;

use crate::text::{all_digits, is_digit};

verus! {

/// A shared drive item as the grouper sees it: everything but the filename is
/// opaque to this logic.
pub struct DriveItem {
    pub name: String,
}

impl View for DriveItem {
    type V = Seq<char>;

    open spec fn view(&self) -> Seq<char> {
        self.name@
    }
}

impl DeepView for DriveItem {
    type V = Seq<char>;

    open spec fn deep_view(&self) -> Seq<char> {
        self.name@
    }
}

/// Why grouping failed.
#[derive(Debug)]
pub enum GroupError {
    /// A filename held no `.`, so no extension can be split off and the item
    /// cannot be classified.
    MissingExtension,
}

/// The position of the last `.` in `name`, or `-1` when there is none.
pub open spec fn last_dot(name: Seq<char>) -> int
    decreases name.len(),
{
    if name.len() == 0 {
        -1
    } else if name.last() == '.' {
        name.len() - 1
    } else {
        last_dot(name.drop_last())
    }
}

/// `name` holds at least one `.`, the one separator grouping needs.
pub open spec fn has_dot(name: Seq<char>) -> bool {
    last_dot(name) >= 0
}

/// The filename with its final extension removed: the group key.
pub open spec fn base_of(name: Seq<char>) -> Seq<char> {
    name.take(last_dot(name))
}

/// The final extension, the part after the last `.`.
pub open spec fn ext_of(name: Seq<char>) -> Seq<char> {
    name.skip(last_dot(name) + 1)
}

/// An extension marking one numbered segment of a split archive: exactly
/// three decimal digits.
pub open spec fn is_partial_ext(ext: Seq<char>) -> bool {
    ext.len() == 3 && all_digits(ext)
}

/// The first group whose key equals `base`, or `-1` when there is none.
pub open spec fn find_group(groups: Seq<(Seq<char>, Seq<Seq<char>>)>, base: Seq<char>) -> int
    decreases groups.len(),
{
    if groups.len() == 0 {
        -1
    } else if groups[0].0 == base {
        0
    } else {
        let r = find_group(groups.skip(1), base);
        if r < 0 {
            -1
        } else {
            r + 1
        }
    }
}

proof fn lemma_find_group_first(groups: Seq<(Seq<char>, Seq<Seq<char>>)>, base: Seq<char>, i: int)
    requires
        0 <= i <= groups.len(),
        forall|k: int| 0 <= k < i ==> #[trigger] groups[k].0 != base,
        i < groups.len() ==> groups[i].0 == base,
    ensures
        i < groups.len() ==> find_group(groups, base) == i,
        i == groups.len() ==> find_group(groups, base) == -1,
    decreases groups.len(),
{
    if groups.len() == 0 {
    } else if groups[0].0 == base {
        assert(i == 0);
    } else {
        let tail = groups.skip(1);
        assert(forall|k: int| 0 <= k < i - 1 ==> #[trigger] tail[k].0 != base);
        if i < groups.len() {
            assert(tail[i - 1].0 == base);
        }
        lemma_find_group_first(tail, base, i - 1);
    }
}

/// Where one more filename lands: a numbered segment joins the first group
/// with its base name, and anything else — a standalone archive, or a segment
/// with a so far unseen base — opens a new group at the end.
pub open spec fn add_to_groups(groups: Seq<(Seq<char>, Seq<Seq<char>>)>, name: Seq<char>) -> Seq<
    (Seq<char>, Seq<Seq<char>>),
> {
    let base = base_of(name);
    if is_partial_ext(ext_of(name)) && find_group(groups, base) >= 0 {
        let i = find_group(groups, base);
        groups.update(i, (groups[i].0, groups[i].1.push(name)))
    } else {
        groups.push((base, seq![name]))
    }
}

/// The groups that a list of filenames folds into, in encounter order: group
/// keys in order of first appearance, members in input order, never sorted.
pub open spec fn spec_groups(names: Seq<Seq<char>>) -> Seq<(Seq<char>, Seq<Seq<char>>)>
    decreases names.len(),
{
    if names.len() == 0 {
        seq![]
    } else {
        add_to_groups(spec_groups(names.drop_last()), names.last())
    }
}

/// Every filename has an extension separator.
pub open spec fn all_have_ext(names: Seq<Seq<char>>) -> bool {
    forall|i: int| 0 <= i < names.len() ==> has_dot(#[trigger] names[i])
}

/// The grouping a built `Vec` represents: each group's key and its members'
/// names.
pub open spec fn view_groups(groups: Seq<(String, Vec<DriveItem>)>) -> Seq<
    (Seq<char>, Seq<Seq<char>>),
> {
    Seq::new(groups.len(), |i: int| (groups[i].0@, groups[i].1.deep_view()))
}

/// Splits `name` at its last `.` into base name and extension, or reports
/// that it has none.
fn split_last_dot(name: &str) -> (r: Option<(String, String)>)
    ensures
        match r {
            Some((base, ext)) => has_dot(name@) && base@ == base_of(name@) && ext@ == ext_of(
                name@,
            ),
            None => !has_dot(name@),
        },
{
    let n = name.unicode_len();
    let mut j: usize = n;
    proof {
        assert(name@.take(n as int) =~= name@);
    }
    while j > 0
        invariant
            j <= n,
            n == name@.len(),
            last_dot(name@) == last_dot(name@.take(j as int)),
        decreases j,
    {
        let c = name.get_char(j - 1);
        proof {
            assert(name@.take(j as int).last() == name@[j - 1]);
        }
        if c == '.' {
            proof {
                assert(last_dot(name@.take(j as int)) == j - 1);
                assert(name@.take(j - 1) =~= name@.subrange(0, j - 1));
                assert(name@.skip(j as int) =~= name@.subrange(j as int, n as int));
            }
            let base = name.substring_char(0, j - 1);
            let ext = name.substring_char(j, n);
            return Some((base.to_owned(), ext.to_owned()));
        }
        proof {
            assert(name@.take(j as int).drop_last() =~= name@.take(j - 1));
        }
        j = j - 1;
    }
    proof {
        assert(name@.take(0) =~= Seq::<char>::empty());
    }
    None
}

/// Whether an extension marks a numbered archive segment.
fn is_partial_extension(ext: &str) -> (r: bool)
    ensures
        r == is_partial_ext(ext@),
{
    let n = ext.unicode_len();
    if n != 3 {
        return false;
    }
    let mut k: usize = 0;
    while k < 3
        invariant
            k <= 3,
            n == ext@.len(),
            n == 3,
            forall|i: int| 0 <= i < k ==> is_digit(#[trigger] ext@[i]),
        decreases 3 - k,
    {
        let c = ext.get_char(k);
        if c < '0' || c > '9' {
            assert(!is_digit(ext@[k as int]));
            return false;
        }
        k = k + 1;
    }
    true
}

/// The first existing group keyed by `base`, if any.
fn find_group_index(groups: &Vec<(String, Vec<DriveItem>)>, base: &String) -> (r: Option<usize>)
    ensures
        match r {
            Some(i) => i < groups@.len() && find_group(view_groups(groups@), base@) == i,
            None => find_group(view_groups(groups@), base@) == -1,
        },
{
    let n = groups.len();
    let mut i: usize = 0;
    while i < n
        invariant
            i <= n,
            n == groups@.len(),
            forall|k: int| 0 <= k < i ==> #[trigger] view_groups(groups@)[k].0 != base@,
        decreases n - i,
    {
        if groups[i].0.eq(base) {
            proof {
                lemma_find_group_first(view_groups(groups@), base@, i as int);
            }
            return Some(i);
        }
        i = i + 1;
    }
    proof {
        lemma_find_group_first(view_groups(groups@), base@, n as int);
    }
    None
}

/// Partitions drive items into archive groups, keyed by the filename with its
/// final extension removed. A numbered segment (`.000`–`.999`) joins the
/// first group with its base name, or opens one; any other item always opens
/// a group of its own. Members keep the order they were encountered in; no
/// sorting by segment number is performed. A filename with no `.` fails the
/// whole grouping.
pub fn group_drive_item_archives(drive_items: Vec<DriveItem>) -> (r: Result<
    Vec<(String, Vec<DriveItem>)>,
    GroupError,
>)
    ensures
        r is Err <==> !all_have_ext(drive_items.deep_view()),
        r matches Err(e) ==> e == GroupError::MissingExtension,
        r matches Ok(groups) ==> view_groups(groups@) == spec_groups(drive_items.deep_view()),
{
    let ghost names = drive_items.deep_view();
    let mut groups: Vec<(String, Vec<DriveItem>)> = Vec::new();
    let n = drive_items.len();
    let mut i: usize = 0;
    proof {
        assert(names.take(0) =~= Seq::<Seq<char>>::empty());
        assert(view_groups(groups@) =~= spec_groups(names.take(0)));
    }
    while i < n
        invariant
            i <= n,
            n == drive_items@.len(),
            names == drive_items.deep_view(),
            names.len() == n,
            all_have_ext(names.take(i as int)),
            view_groups(groups@) == spec_groups(names.take(i as int)),
        decreases n - i,
    {
        let ghost name_i = names[i as int];
        let ghost g0 = spec_groups(names.take(i as int));
        proof {
            assert(names.take(i + 1).drop_last() =~= names.take(i as int));
            assert(names.take(i + 1).last() == name_i);
        }
        match split_last_dot(drive_items[i].name.as_str()) {
            None => {
                proof {
                    assert(!has_dot(names[i as int]));
                    assert(!all_have_ext(names));
                }
                return Err(GroupError::MissingExtension);
            },
            Some((base, ext)) => {
                let item = DriveItem { name: drive_items[i].name.clone() };
                assert(item@ == name_i);
                if is_partial_extension(ext.as_str()) {
                    match find_group_index(&groups, &base) {
                        Some(idx) => {
                            let ghost old_groups = groups@;
                            let (key, mut members) = groups.remove(idx);
                            members.push(item);
                            proof {
                                assert(members.deep_view() =~= old_groups[idx as int].1.deep_view()
                                    .push(name_i));
                            }
                            groups.insert(idx, (key, members));
                            proof {
                                assert(groups@ =~= old_groups.update(idx as int, (key, members)));
                                assert(view_groups(groups@) =~~= add_to_groups(g0, name_i));
                            }
                        },
                        None => {
                            let mut members: Vec<DriveItem> = Vec::new();
                            members.push(item);
                            proof {
                                assert(members.deep_view() =~= seq![name_i]);
                            }
                            groups.push((base, members));
                            proof {
                                assert(view_groups(groups@) =~~= add_to_groups(g0, name_i));
                            }
                        },
                    }
                } else {
                    let mut members: Vec<DriveItem> = Vec::new();
                    members.push(item);
                    proof {
                        assert(members.deep_view() =~= seq![name_i]);
                    }
                    groups.push((base, members));
                    proof {
                        assert(view_groups(groups@) =~~= add_to_groups(g0, name_i));
                    }
                }
                proof {
                    assert(all_have_ext(names.take(i + 1))) by {
                        assert(forall|k: int|
                            0 <= k < i ==> names.take(i + 1)[k] == #[trigger] names.take(
                                i as int,
                            )[k]);
                        assert(names.take(i + 1)[i as int] == name_i);
                    }
                }
            },
        }
        i = i + 1;
    }
    proof {
        assert(names.take(n as int) =~= names);
    }
    Ok(groups)
}

} // verus!
