//! Municipalities of the job search service and the location lists that the
//! user writes in the settings ("Helsingborg, 1277, lund").

use vstd::prelude::*;
use crate::text::{
    copy_range,
    append_chars, chars_of, is_numeric, list_items, list_items_chars, seq_eq, string_from_chars,
    to_lowercase, char_to_uppercase, lowercase, numeric_property, uppercase_of_char, join,
    in_latin1, latin1_lower_letter, latin1_lowered, latin1_to_upper,
};

verus! {

/// The municipalities the application knows, by lower-case name and code.
pub open spec fn municipality_table() -> Seq<(&'static str, &'static str)> {
    seq![
        ("helsingborg", "1283"), ("ängelholm", "1292"), ("höganäs", "1284"), ("bjuv", "1260"),
        ("klippan", "1276"), ("åstorp", "1277"), ("örkelljunga", "1257"), ("båstad", "1278"),
        ("perstorp", "1275"), ("landskrona", "1282"), ("svalöv", "1214"), ("burlöv", "1231"),
        ("kävlinge", "1261"), ("malmö", "1280"), ("lund", "1281"), ("eslöv", "1285"),
        ("vellinge", "1233"), ("trelleborg", "1287"), ("ystad", "1286"), ("kristianstad", "1290"),
        ("hässleholm", "1293"), ("lomma", "1262"), ("staffanstorp", "1230"), ("svedala", "1263"),
        ("skurup", "1264"), ("sjöbo", "1265"), ("höör", "1267"), ("hörby", "1266"),
        ("tomelilla", "1270"), ("simrishamn", "1291"), ("osby", "1272"), ("östra göinge", "1273"),
        ("bromölla", "1271"), ("stockholm", "0180"), ("huddinge", "0126"), ("nacka", "0182"),
        ("göteborg", "1480"), ("mölndal", "1481"), ("uppsala", "0380"), ("västerås", "1980"),
    ]
}

fn municipalities() -> (t: Vec<(&'static str, &'static str)>)
    ensures
        t@ == municipality_table(),
{
    vec![
        ("helsingborg", "1283"), ("ängelholm", "1292"), ("höganäs", "1284"), ("bjuv", "1260"),
        ("klippan", "1276"), ("åstorp", "1277"), ("örkelljunga", "1257"), ("båstad", "1278"),
        ("perstorp", "1275"), ("landskrona", "1282"), ("svalöv", "1214"), ("burlöv", "1231"),
        ("kävlinge", "1261"), ("malmö", "1280"), ("lund", "1281"), ("eslöv", "1285"),
        ("vellinge", "1233"), ("trelleborg", "1287"), ("ystad", "1286"), ("kristianstad", "1290"),
        ("hässleholm", "1293"), ("lomma", "1262"), ("staffanstorp", "1230"), ("svedala", "1263"),
        ("skurup", "1264"), ("sjöbo", "1265"), ("höör", "1267"), ("hörby", "1266"),
        ("tomelilla", "1270"), ("simrishamn", "1291"), ("osby", "1272"), ("östra göinge", "1273"),
        ("bromölla", "1271"), ("stockholm", "0180"), ("huddinge", "0126"), ("nacka", "0182"),
        ("göteborg", "1480"), ("mölndal", "1481"), ("uppsala", "0380"), ("västerås", "1980"),
    ]
}

/// Index of the first table row whose name is `name`.
pub open spec fn first_row_named(name: Seq<char>) -> Option<int> {
    if exists|i: int| 0 <= i < municipality_table().len() && (#[trigger] municipality_table()[i]).0@ == name {
        let i = choose|i: int| 0 <= i < municipality_table().len() && (#[trigger] municipality_table()[i]).0@ == name
            && forall|j: int| 0 <= j < i ==> (#[trigger] municipality_table()[j]).0@ != name;
        Some(i)
    } else {
        None
    }
}

/// Index of the first table row whose code is `code`.
pub open spec fn first_row_coded(code: Seq<char>) -> Option<int> {
    if exists|i: int| 0 <= i < municipality_table().len() && (#[trigger] municipality_table()[i]).1@ == code {
        let i = choose|i: int| 0 <= i < municipality_table().len() && (#[trigger] municipality_table()[i]).1@ == code
            && forall|j: int| 0 <= j < i ==> (#[trigger] municipality_table()[j]).1@ != code;
        Some(i)
    } else {
        None
    }
}

/// The code of the first row with the given (lower-case) name.
pub open spec fn code_named(key: Seq<char>) -> Option<Seq<char>> {
    match first_row_named(key) {
        Some(i) => Some(municipality_table()[i].1@),
        None => None,
    }
}

/// The code of a municipality, looked up by its name in lower case. A
/// Latin-1 name (as every name in the table is) is lowered letter by letter.
pub open spec fn code_of(name: Seq<char>) -> Option<Seq<char>> {
    if in_latin1(name) {
        code_named(latin1_lowered(name))
    } else {
        code_named(lowercase(name))
    }
}

/// A name with its first character in upper case.
pub open spec fn capitalized(n: Seq<char>) -> Seq<char> {
    if n.len() == 0 {
        Seq::empty()
    } else {
        uppercase_of_char(n[0]) + n.drop_first()
    }
}

/// A name whose first letter is a Latin-1 lower-case letter, with that
/// letter in upper case.
pub open spec fn titled(n: Seq<char>) -> Seq<char> {
    seq![latin1_to_upper(n[0])] + n.drop_first()
}

/// The display name of a municipality, looked up by its code: its name with
/// the first letter in upper case (every name in the table starts with a
/// Latin-1 lower-case letter).
pub open spec fn name_of(code: Seq<char>) -> Option<Seq<char>> {
    match first_row_coded(code) {
        Some(i) => Some(titled(municipality_table()[i].0@)),
        None => None,
    }
}

/// A name as the table writes it: Latin-1 lower-case letters, words
/// separated by spaces, starting with a letter.
pub open spec fn table_name_form(n: Seq<char>) -> bool {
    &&& n.len() > 0
    &&& latin1_lower_letter(n[0])
    &&& forall|i: int| 0 < i < n.len() ==> (#[trigger] n[i] == ' ' || latin1_lower_letter(n[i]))
}

/// Three facts about a name that tell the names of the table apart.
pub open spec fn name_key(n: Seq<char>) -> (nat, char, char) {
    (n.len(), n[0], n[1])
}

/// Every name of the table has the table's form, and no two rows share a
/// name.
proof fn lemma_table_names()
    ensures
        forall|k: int| 0 <= k < municipality_table().len() ==> table_name_form(#[trigger] municipality_table()[k].0@),
        forall|j: int, k: int| 0 <= j < k < municipality_table().len()
            ==> #[trigger] municipality_table()[j].0@ != #[trigger] municipality_table()[k].0@,
{
    reveal_strlit("helsingborg");
    reveal_strlit("ängelholm");
    reveal_strlit("höganäs");
    reveal_strlit("bjuv");
    reveal_strlit("klippan");
    reveal_strlit("åstorp");
    reveal_strlit("örkelljunga");
    reveal_strlit("båstad");
    reveal_strlit("perstorp");
    reveal_strlit("landskrona");
    reveal_strlit("svalöv");
    reveal_strlit("burlöv");
    reveal_strlit("kävlinge");
    reveal_strlit("malmö");
    reveal_strlit("lund");
    reveal_strlit("eslöv");
    reveal_strlit("vellinge");
    reveal_strlit("trelleborg");
    reveal_strlit("ystad");
    reveal_strlit("kristianstad");
    reveal_strlit("hässleholm");
    reveal_strlit("lomma");
    reveal_strlit("staffanstorp");
    reveal_strlit("svedala");
    reveal_strlit("skurup");
    reveal_strlit("sjöbo");
    reveal_strlit("höör");
    reveal_strlit("hörby");
    reveal_strlit("tomelilla");
    reveal_strlit("simrishamn");
    reveal_strlit("osby");
    reveal_strlit("östra göinge");
    reveal_strlit("bromölla");
    reveal_strlit("stockholm");
    reveal_strlit("huddinge");
    reveal_strlit("nacka");
    reveal_strlit("göteborg");
    reveal_strlit("mölndal");
    reveal_strlit("uppsala");
    reveal_strlit("västerås");
    assert forall|j: int, k: int| 0 <= j < k < municipality_table().len()
        implies #[trigger] municipality_table()[j].0@ != #[trigger] municipality_table()[k].0@ by {
        assert(name_key(municipality_table()[j].0@) != name_key(municipality_table()[k].0@));
    }
}

/// A name in the table's form, with its first letter in upper case, is a
/// Latin-1 text that lowers back to the name.
proof fn lemma_titled_lowers_back(n: Seq<char>)
    requires
        table_name_form(n),
    ensures
        in_latin1(titled(n)),
        latin1_lowered(titled(n)) == n,
{
    let t = titled(n);
    assert forall|i: int| 0 <= i < t.len() implies (#[trigger] t[i] as int) <= 0xFF by {
        if i > 0 {
            assert(t[i] == n[i]);
            assert(n[i] == ' ' || latin1_lower_letter(n[i]));
        }
    }
    let c = n[0];
    let u = ((c as int) - 32) as char;
    assert(t[0] == u);
    assert((u as int) == (c as int) - 32);
    assert(crate::text::latin1_upper_letter(u));
    assert(crate::text::latin1_to_lower(u) == c) by {
        assert((u as int) + 32 == (c as int));
        assert((c as int) as char == c);
    }
    assert(latin1_lowered(t) =~= n) by {
        assert forall|i: int| 0 <= i < n.len() implies #[trigger] latin1_lowered(t)[i] == n[i] by {
            if i > 0 {
                assert(t[i] == n[i]);
                assert(n[i] == ' ' || latin1_lower_letter(n[i]));
            }
        }
    }
}

/// One row's name has the table's form.
proof fn lemma_row_name_form(i: int)
    requires
        0 <= i < municipality_table().len(),
    ensures
        table_name_form(municipality_table()[i].0@),
{
    lemma_table_names();
}

/// The row of a name of the table is the first row with that name.
proof fn lemma_row_named_first(i: int)
    requires
        0 <= i < municipality_table().len(),
    ensures
        first_row_named(municipality_table()[i].0@) == Some(i),
{
    lemma_table_names();
    let n = municipality_table()[i].0@;
    let k = choose|k: int| 0 <= k < municipality_table().len() && (#[trigger] municipality_table()[k]).0@ == n
        && forall|j: int| 0 <= j < k ==> (#[trigger] municipality_table()[j]).0@ != n;
    if k < i {
        assert(municipality_table()[k].0@ != municipality_table()[i].0@);
    } else if k > i {
        assert(municipality_table()[i].0@ == n);
    }
}

/// Looking up the name given for a code gives that code back, whatever
/// the letter case: for every code of the table, the code of its display
/// name is the code.
pub proof fn lemma_municipality_round_trip(code: Seq<char>)
    requires
        name_of(code) is Some,
    ensures
        code_of(name_of(code)->0) == Some(code),
{
    let i = first_row_coded(code)->0;
    let n = municipality_table()[i].0@;
    lemma_row_name_form(i);
    lemma_titled_lowers_back(n);
    lemma_row_named_first(i);
    assert(name_of(code) == Some(titled(n)));
    assert(code_of(titled(n)) == code_named(n));
}

/// Names that lower to the same text stand for the same municipality.
pub proof fn lemma_code_ignores_case(a: Seq<char>, b: Seq<char>)
    requires
        in_latin1(a),
        in_latin1(b),
        latin1_lowered(a) == latin1_lowered(b),
    ensures
        code_of(a) == code_of(b),
{
}

/// Finds the first row whose name (`by_name`) or code equals `key`.
fn find_row(key: &[char], by_name: bool) -> (r: Option<usize>)
    ensures
        by_name ==> r == (match first_row_named(key@) { Some(i) => Some(i as usize), None => None::<usize> }),
        !by_name ==> r == (match first_row_coded(key@) { Some(i) => Some(i as usize), None => None::<usize> }),
        r matches Some(i) ==> i < municipality_table().len(),
{
    let t = municipalities();
    let mut i: usize = 0;
    while i < t.len()
        invariant
            i <= t@.len(),
            t@ == municipality_table(),
            by_name ==> forall|j: int| 0 <= j < i ==> (#[trigger] municipality_table()[j]).0@ != key@,
            !by_name ==> forall|j: int| 0 <= j < i ==> (#[trigger] municipality_table()[j]).1@ != key@,
        decreases t.len() - i,
    {
        let (n, c) = t[i];
        let field = if by_name { chars_of(n) } else { chars_of(c) };
        if seq_eq(field.as_slice(), key) {
            proof {
                if by_name {
                    assert(municipality_table()[i as int].0@ == key@);
                    let k = choose|k: int| 0 <= k < municipality_table().len() && (#[trigger] municipality_table()[k]).0@ == key@
                        && forall|j: int| 0 <= j < k ==> (#[trigger] municipality_table()[j]).0@ != key@;
                    assert(k == i) by {
                        if k < i {} else if k > i { assert(municipality_table()[i as int].0@ == key@); }
                    }
                } else {
                    assert(municipality_table()[i as int].1@ == key@);
                    let k = choose|k: int| 0 <= k < municipality_table().len() && (#[trigger] municipality_table()[k]).1@ == key@
                        && forall|j: int| 0 <= j < k ==> (#[trigger] municipality_table()[j]).1@ != key@;
                    assert(k == i) by {
                        if k < i {} else if k > i { assert(municipality_table()[i as int].1@ == key@); }
                    }
                }
            }
            return Some(i);
        }
        i = i + 1;
    }
    None
}

/// The code of a municipality given its name in any letter case.
pub fn get_municipality_code(name: &str) -> (r: Option<&'static str>)
    ensures
        r matches Some(c) ==> code_of(name@) == Some(c@),
        r is None ==> code_of(name@) is None,
{
    let lower = to_lowercase(name);
    let key = chars_of(lower.as_str());
    match find_row(key.as_slice(), true) {
        Some(i) => {
            let t = municipalities();
            Some(t[i].1)
        },
        None => None,
    }
}

fn capitalize(n: &[char]) -> (r: Vec<char>)
    ensures
        r@ == capitalized(n@),
        n@.len() > 0 && latin1_lower_letter(n@[0]) ==> r@ == titled(n@),
{
    if n.len() == 0 {
        return Vec::new();
    }
    let mut r = char_to_uppercase(n[0]);
    let ghost first = r@;
    let mut k: usize = 1;
    while k < n.len()
        invariant
            1 <= k <= n@.len(),
            first == uppercase_of_char(n@[0]),
            latin1_lower_letter(n@[0]) ==> first == seq![latin1_to_upper(n@[0])],
            r@ == first + n@.subrange(1, k as int),
        decreases n.len() - k,
    {
        r.push(n[k]);
        k = k + 1;
    }
    assert(n@.subrange(1, n@.len() as int) == n@.drop_first());
    r
}

/// The display name of a municipality given its code: its name with the
/// first letter in upper case.
pub fn get_municipality_name(code: &str) -> (r: Option<String>)
    ensures
        r matches Some(n) ==> name_of(code@) == Some(n@),
        r is None ==> name_of(code@) is None,
{
    let key = chars_of(code);
    match find_row(key.as_slice(), false) {
        Some(i) => {
            let t = municipalities();
            let name = chars_of(t[i].0);
            proof {
                lemma_table_names();
                assert(table_name_form(municipality_table()[i as int].0@));
            }
            let cap = capitalize(name.as_slice());
            Some(string_from_chars(cap.as_slice()))
        },
        None => None,
    }
}

pub open spec fn all_numeric(s: Seq<char>) -> bool {
    forall|i: int| 0 <= i < s.len() ==> numeric_property(#[trigger] s[i])
}

fn all_numeric_chars(s: &[char]) -> (b: bool)
    ensures
        b == all_numeric(s@),
{
    let mut i: usize = 0;
    while i < s.len()
        invariant
            i <= s@.len(),
            forall|j: int| 0 <= j < i ==> numeric_property(#[trigger] s@[j]),
        decreases s.len() - i,
    {
        if !is_numeric(s[i]) {
            return false;
        }
        i = i + 1;
    }
    true
}

/// The code a location item stands for: a numeric item is a code already, a
/// name is looked up, and an unknown name stands for nothing (empty).
pub open spec fn location_code(item: Seq<char>) -> Seq<char> {
    if all_numeric(item) {
        item
    } else {
        match code_of(item) {
            Some(c) => c,
            None => Seq::empty(),
        }
    }
}

pub open spec fn without_empty(ss: Seq<Seq<char>>) -> Seq<Seq<char>>
    decreases ss.len(),
{
    if ss.len() == 0 {
        Seq::empty()
    } else if ss.last().len() == 0 {
        without_empty(ss.drop_last())
    } else {
        without_empty(ss.drop_last()).push(ss.last())
    }
}

/// The municipality codes of a comma-separated location list.
pub open spec fn parse_locations_spec(input: Seq<char>) -> Seq<Seq<char>> {
    without_empty(list_items(input, ',').map_values(|s: Seq<char>| location_code(s)))
}

pub proof fn lemma_without_empty_nonempty(ss: Seq<Seq<char>>)
    ensures
        forall|k: int| 0 <= k < without_empty(ss).len() ==> (#[trigger] without_empty(ss)[k]).len() > 0,
    decreases ss.len(),
{
    if ss.len() > 0 {
        lemma_without_empty_nonempty(ss.drop_last());
        let w = without_empty(ss.drop_last());
        if ss.last().len() > 0 {
            assert forall|k: int| 0 <= k < without_empty(ss).len() implies (#[trigger] without_empty(ss)[k]).len() > 0 by {
                if k < w.len() {
                    assert(without_empty(ss)[k] == w[k]);
                }
            }
        }
    }
}

fn location_code_of(item: &[char]) -> (r: Vec<char>)
    ensures
        r@ == location_code(item@),
{
    if all_numeric_chars(item) {
        let r = copy_range(item, 0, item.len());
        assert(item@.subrange(0, item@.len() as int) == item@);
        r
    } else {
        let s = string_from_chars(item);
        match get_municipality_code(s.as_str()) {
            Some(c) => chars_of(c),
            None => Vec::new(),
        }
    }
}

fn location_display_of(item: &[char]) -> (r: Vec<char>)
    ensures
        r@ == location_display(item@),
{
    if all_numeric_chars(item) {
        let s = string_from_chars(item);
        match get_municipality_name(s.as_str()) {
            Some(n) => chars_of(n.as_str()),
            None => {
                let r = copy_range(item, 0, item.len());
                assert(item@.subrange(0, item@.len() as int) == item@);
                r
            },
        }
    } else if item.len() == 0 {
        Vec::new()
    } else {
        let mut first = char_to_uppercase(item[0]);
        let rest = string_from_chars(copy_range(item, 1, item.len()).as_slice());
        assert(item@.subrange(1, item@.len() as int) == item@.drop_first());
        let low = to_lowercase(rest.as_str());
        append_chars(&mut first, chars_of(low.as_str()).as_slice());
        first
    }
}

/// Reads a comma-separated list of municipality names and codes into codes.
#[verifier::spinoff_prover]
#[verifier::rlimit(50)]
pub fn parse_locations(input: &str) -> (r: Vec<String>)
    ensures
        r@.len() == parse_locations_spec(input@).len(),
        forall|k: int| 0 <= k < r@.len() ==> #[trigger] r@[k]@ == parse_locations_spec(input@)[k],
{
    let items = list_items_chars(chars_of(input).as_slice(), ',');
    let ghost mapped = list_items(input@, ',').map_values(|s: Seq<char>| location_code(s));
    let mut r: Vec<String> = Vec::new();
    let mut i: usize = 0;
    while i < items.len()
        invariant
            i <= items@.len(),
            items@.len() == list_items(input@, ',').len(),
            forall|k: int| 0 <= k < items@.len() ==> #[trigger] items@[k]@ == list_items(input@, ',')[k],
            mapped == list_items(input@, ',').map_values(|s: Seq<char>| location_code(s)),
            r@.len() == without_empty(mapped.subrange(0, i as int)).len(),
            forall|k: int| 0 <= k < r@.len() ==> #[trigger] r@[k]@ == without_empty(mapped.subrange(0, i as int))[k],
        decreases items.len() - i,
    {
        assert(mapped.subrange(0, i + 1).drop_last() == mapped.subrange(0, i as int));
        assert(mapped.subrange(0, i + 1).last() == location_code(items@[i as int]@));
        let code = location_code_of(items[i].as_slice());
        if code.len() > 0 {
            r.push(string_from_chars(code.as_slice()));
        }
        i = i + 1;
    }
    assert(mapped.subrange(0, items@.len() as int) == mapped);
    r
}

/// How a location item is shown: codes become municipality names (or stay
/// as they are when unknown), names get an upper-case first letter and a
/// lower-case rest.
pub open spec fn location_display(item: Seq<char>) -> Seq<char> {
    if all_numeric(item) {
        match name_of(item) {
            Some(n) => n,
            None => item,
        }
    } else if item.len() == 0 {
        Seq::empty()
    } else {
        uppercase_of_char(item[0]) + lowercase(item.drop_first())
    }
}

/// The normalized form of a location list: items shown as above, joined
/// by ", ".
pub open spec fn normalize_locations_spec(input: Seq<char>) -> Seq<char> {
    join(without_empty(list_items(input, ',').map_values(|s: Seq<char>| location_display(s))), ", "@)
}

/// Rewrites a location list for display.
pub fn normalize_locations(input: &str) -> (r: String)
    ensures
        r@ == normalize_locations_spec(input@),
{
    let items = list_items_chars(chars_of(input).as_slice(), ',');
    let ghost mapped = list_items(input@, ',').map_values(|s: Seq<char>| location_display(s));
    let mut shown: Vec<Vec<char>> = Vec::new();
    let mut i: usize = 0;
    while i < items.len()
        invariant
            i <= items@.len(),
            items@.len() == list_items(input@, ',').len(),
            forall|k: int| 0 <= k < items@.len() ==> #[trigger] items@[k]@ == list_items(input@, ',')[k],
            mapped == list_items(input@, ',').map_values(|s: Seq<char>| location_display(s)),
            shown@.len() == without_empty(mapped.subrange(0, i as int)).len(),
            forall|k: int| 0 <= k < shown@.len() ==> #[trigger] shown@[k]@ == without_empty(mapped.subrange(0, i as int))[k],
        decreases items.len() - i,
    {
        assert(mapped.subrange(0, i + 1).drop_last() == mapped.subrange(0, i as int));
        assert(mapped.subrange(0, i + 1).last() == location_display(items@[i as int]@));
        let d = location_display_of(items[i].as_slice());
        if d.len() > 0 {
            shown.push(d);
        }
        i = i + 1;
    }
    assert(mapped.subrange(0, items@.len() as int) == mapped);
    let ghost views = shown@.map_values(|p: Vec<char>| p@);
    assert(views =~= without_empty(mapped));
    let sep = chars_of(", ");
    let joined = crate::text::join_chars(&shown, sep.as_slice());
    string_from_chars(joined.as_slice())
}

} // verus!
