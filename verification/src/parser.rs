//! Scanning of the small script-like text messages sent by the browser
//! client: variable lookup, splitting, and bracket nesting levels.

use vstd::prelude::*;
use crate::text::{chars_of, find_at, find_from, find_spec, lemma_find_from, occurs_at, string_of_range};
use crate::number::{parse_i32, parse_i32_spec};
use crate::effects::count_where;

verus! {

/// The characters `let ` followed by the variable's name.
pub open spec fn declaration(name: Seq<char>) -> Seq<char> {
    seq!['l', 'e', 't', ' '] + name
}

/// The part of `s` from the declaration of `name` on, where that declaration occurs.
pub open spec fn declaration_rest(s: Seq<char>, name: Seq<char>) -> Option<Seq<char>> {
    match find_spec(s, declaration(name)) {
        Some(start) => Some(s.subrange(start, s.len() as int)),
        None => None,
    }
}

/// The text `get_variable` returns: in the part of `s` from the first declaration
/// of `name` on, what stands between the first `"= "` and the first `;`.
pub open spec fn get_variable_spec(s: Seq<char>, name: Seq<char>) -> Option<Seq<char>> {
    match declaration_rest(s, name) {
        None => None,
        Some(rest) => match (find_spec(rest, seq!['=', ' ']), find_spec(rest, seq![';'])) {
            (Some(eq), Some(semi)) => Some(rest.subrange(eq + 2, semi)),
            _ => None,
        },
    }
}

/// `get_variable` returns on `s` without panicking: where both the `"= "` and the
/// `;` are found after the declaration, the `"= "` ends before the `;`.
pub open spec fn get_variable_ok(s: Seq<char>, name: Seq<char>) -> bool {
    match declaration_rest(s, name) {
        None => true,
        Some(rest) => match (find_spec(rest, seq!['=', ' ']), find_spec(rest, seq![';'])) {
            (Some(eq), Some(semi)) => eq + 2 <= semi,
            _ => true,
        },
    }
}

/// The value assigned to the variable `name` in `string`, as written there.
pub fn get_variable(string: &String, name: &str) -> (r: Option<String>)
    requires
        get_variable_ok(string@, name@),
    ensures
        r matches Some(v) ==> get_variable_spec(string@, name@) == Some(v@),
        r is None ==> get_variable_spec(string@, name@) is None,
{
    let s = chars_of(string.as_str());
    let mut declaration = vec!['l', 'e', 't', ' '];
    let mut name_chars = chars_of(name);
    declaration.append(&mut name_chars);
    assert(declaration@ =~= crate::parser::declaration(name@));
    let var_start = match find_at(&s, &declaration, 0) {
        Some(r) => r,
        None => {
            return None;
        },
    };
    proof {
        lemma_find_from(s@, declaration@, 0);
    }
    let rest = slice_from(&s, var_start);
    let assign = vec!['=', ' '];
    let semicolon = vec![';'];
    assert(assign@ =~= seq!['=', ' ']);
    assert(semicolon@ =~= seq![';']);
    proof {
        lemma_find_from(rest@, assign@, 0);
    }
    let value_start = match find_at(&rest, &assign, 0) {
        Some(r) => {
            assert(find_from(rest@, assign@, 0) == Some(r as int));
            assert(occurs_at(rest@, assign@, r as int));
            assert(r + 2 <= rest.len());
            r + 2
        },
        None => {
            return None;
        },
    };
    let value_end = match find_at(&rest, &semicolon, 0) {
        Some(r) => r,
        None => {
            return None;
        },
    };
    proof {
        lemma_find_from(rest@, seq![';'], 0);
    }
    Some(string_of_range(&rest, value_start, value_end))
}

/// The characters of `v` from index `from` on.
pub fn slice_from(v: &Vec<char>, from: usize) -> (r: Vec<char>)
    requires
        from <= v.len(),
    ensures
        r@ == v@.subrange(from as int, v@.len() as int),
{
    let mut r: Vec<char> = Vec::new();
    let mut i = from;
    while i < v.len()
        invariant
            from <= i <= v.len(),
            r@ == v@.subrange(from as int, i as int),
        decreases v.len() - i,
    {
        r.push(v[i]);
        i = i + 1;
        assert(r@ =~= v@.subrange(from as int, i as int));
    }
    r
}

/// `get_mouse` returns without panicking: the lookups of `x` and `y` do not
/// panic, and where both are found, both read as `i32`.
pub open spec fn get_mouse_ok(s: Seq<char>) -> bool {
    &&& get_variable_ok(s, seq!['x'])
    &&& (get_variable_spec(s, seq!['x']) is Some ==> get_variable_ok(s, seq!['y']))
    &&& (get_variable_spec(s, seq!['x']) is Some && get_variable_spec(s, seq!['y']) is Some ==> {
        &&& parse_i32_spec(get_variable_spec(s, seq!['x']).unwrap()) is Some
        &&& parse_i32_spec(get_variable_spec(s, seq!['y']).unwrap()) is Some
    })
}

/// The mouse position `get_mouse` reads: the values of `x` and `y`, where both are declared.
pub open spec fn get_mouse_spec(s: Seq<char>) -> Option<(i32, i32)> {
    match (get_variable_spec(s, seq!['x']), get_variable_spec(s, seq!['y'])) {
        (Some(x), Some(y)) => Some((parse_i32_spec(x).unwrap(), parse_i32_spec(y).unwrap())),
        _ => None,
    }
}

/// The mouse position declared in `string` by the variables `x` and `y`.
pub fn get_mouse(string: &String) -> (r: Option<(i32, i32)>)
    requires
        get_mouse_ok(string@),
    ensures
        r == get_mouse_spec(string@),
{
    let x_name = "x";
    let y_name = "y";
    proof {
        reveal_strlit("x");
        reveal_strlit("y");
    }
    assert(x_name@ =~= seq!['x']);
    assert(y_name@ =~= seq!['y']);
    let x_string = match get_variable(string, x_name) {
        Some(e) => e,
        None => {
            return None;
        },
    };
    let y_string = match get_variable(string, y_name) {
        Some(e) => e,
        None => {
            return None;
        },
    };
    let x = parse_i32(&chars_of(x_string.as_str())).unwrap();
    let y = parse_i32(&chars_of(y_string.as_str())).unwrap();
    Some((x, y))
}

/// The name `keys_down`.
pub open spec fn keys_down_name() -> Seq<char> {
    seq!['k', 'e', 'y', 's', '_', 'd', 'o', 'w', 'n']
}

/// The keys that the variable `keys_down` lists, separated by commas.
pub fn get_keys_down(string: &String) -> (r: Vec<String>)
    requires
        get_variable_ok(string@, keys_down_name()),
        get_variable_spec(string@, keys_down_name()) is Some,
    ensures
        r@.map_values(|k: String| k@) == split_spec(
            get_variable_spec(string@, keys_down_name()).unwrap(),
            seq![','],
        ),
{
    let name = "keys_down";
    proof {
        reveal_strlit("keys_down");
    }
    assert(name@ =~= keys_down_name());
    let value = get_variable(string, name).unwrap();
    let comma = ",";
    proof {
        reveal_strlit(",");
    }
    assert(comma@ =~= seq![',']);
    split(&value, comma)
}

/// The pieces of `s` from index `next` on, cut at each occurrence of `sep`.
pub open spec fn split_from(s: Seq<char>, sep: Seq<char>, next: int) -> Seq<Seq<char>>
    decreases (if next < s.len() { s.len() - next } else { 0 }),
{
    if next < 0 || next >= s.len() || sep.len() == 0 {
        Seq::empty()
    } else {
        proof {
            lemma_find_from(s, sep, next);
        }
        let end = match find_from(s, sep, next) {
            Some(i) => i,
            None => s.len() as int,
        };
        seq![s.subrange(next, end)] + split_from(s, sep, end + sep.len())
    }
}

/// The pieces of `s` between occurrences of `sep`, as `split` returns them: a
/// trailing empty piece after a final separator is left out.
pub open spec fn split_spec(s: Seq<char>, sep: Seq<char>) -> Seq<Seq<char>> {
    split_from(s, sep, 0)
}

/// Cuts `string` at each occurrence of `seperator`. An empty separator is only
/// allowed with an empty string (elsewhere the cutting never ends).
pub fn split(string: &String, seperator: &str) -> (r: Vec<String>)
    requires
        seperator@.len() > 0 || string@.len() == 0,
    ensures
        r@.map_values(|k: String| k@) == split_spec(string@, seperator@),
{
    let s = chars_of(string.as_str());
    let sep = chars_of(seperator);
    let mut strings: Vec<String> = Vec::new();
    let mut next: usize = 0;
    while next < s.len()
        invariant
            s@ == string@,
            sep@ == seperator@,
            sep@.len() > 0 || s@.len() == 0,
            split_spec(s@, sep@) == strings@.map_values(|k: String| k@) + split_from(
                s@,
                sep@,
                next as int,
            ),
        decreases s.len() - next,
    {
        proof {
            lemma_find_from(s@, sep@, next as int);
        }
        let found = find_at(&s, &sep, next);
        let end = match found {
            Some(index) => index,
            None => s.len(),
        };
        let piece = string_of_range(&s, next, end);
        let ghost before = strings@;
        strings.push(piece);
        assert(strings@.map_values(|k: String| k@) =~= before.map_values(|k: String| k@).push(
            piece@,
        ));
        match found {
            Some(index) => {
                assert(occurs_at(s@, sep@, index as int));
                next = end + sep.len();
            },
            None => {
                assert(split_from(s@, sep@, s.len() + sep.len()) =~= Seq::empty());
                assert(split_spec(s@, sep@) =~= strings@.map_values(|k: String| k@));
                return strings;
            },
        }
    }
    assert(split_from(s@, sep@, next as int) =~= Seq::empty());
    assert(split_spec(s@, sep@) =~= strings@.map_values(|k: String| k@));
    strings
}

/// The scanner's state after a character: the bracket nesting level, and the
/// quote character of the string literal it is inside, if any.
pub open spec fn scan_step(state: (int, Option<char>), c: char) -> (int, Option<char>) {
    match state.1 {
        Some(quote) => if c == quote {
            (state.0, None)
        } else {
            state
        },
        None => if c == '"' || c == '\'' {
            (state.0, Some(c))
        } else if c == '(' || c == '[' || c == '{' {
            (state.0 + 1, None)
        } else if c == ')' || c == ']' || c == '}' {
            (state.0 - 1, None)
        } else {
            state
        },
    }
}

/// The scanner's state after the first `n` characters of `s`.
pub open spec fn scan_state(s: Seq<char>, n: int) -> (int, Option<char>)
    decreases n,
{
    if n <= 0 {
        (0, None)
    } else {
        scan_step(scan_state(s, n - 1), s[n - 1])
    }
}

/// No closing bracket outside a string literal takes the level below zero
/// (where one does, `level_map` panics).
pub open spec fn levels_nonnegative(s: Seq<char>) -> bool {
    forall|n: int| 0 <= n <= s.len() ==> #[trigger] scan_state(s, n).0 >= 0
}

/// The nesting level after each character of `s`.
pub open spec fn level_map_spec(s: Seq<char>) -> Seq<int> {
    Seq::new(s.len(), |i: int| scan_state(s, i + 1).0)
}

/// The level never exceeds the number of characters read.
proof fn lemma_scan_level_bound(s: Seq<char>, n: int)
    requires
        0 <= n <= s.len(),
    ensures
        scan_state(s, n).0 <= n,
    decreases n,
{
    if n > 0 {
        lemma_scan_level_bound(s, n - 1);
    }
}

/// The bracket nesting level after each character of `string`; brackets inside
/// single- or double-quoted literals do not count.
pub fn level_map(string: &String) -> (map: Vec<usize>)
    requires
        levels_nonnegative(string@),
    ensures
        map@.len() == string@.len(),
        forall|i: int| 0 <= i < map@.len() ==> map@[i] == level_map_spec(string@)[i],
{
    let s = chars_of(string.as_str());
    let mut map: Vec<usize> = Vec::new();
    let mut level: usize = 0;
    let mut mode: Option<char> = None;
    let mut k: usize = 0;
    while k < s.len()
        invariant
            s@ == string@,
            levels_nonnegative(s@),
            0 <= k <= s.len(),
            map@.len() == k,
            (level as int, mode) == scan_state(s@, k as int),
            forall|i: int| 0 <= i < k ==> map@[i] == scan_state(s@, i + 1).0,
        decreases s.len() - k,
    {
        let c = s[k];
        proof {
            lemma_scan_level_bound(s@, k as int);
            assert(scan_state(s@, k + 1) == scan_step(scan_state(s@, k as int), c));
            assert(scan_state(s@, k + 1).0 >= 0);
        }
        match mode {
            Some(m) => {
                if c == m {
                    mode = None;
                }
            },
            None => {
                if c == '"' {
                    mode = Some('"');
                } else if c == '\'' {
                    mode = Some('\'');
                } else if c == '(' || c == '[' || c == '{' {
                    level = level + 1;
                } else if c == ')' || c == ']' || c == '}' {
                    level = level - 1;
                }
            },
        }
        map.push(level);
        k = k + 1;
    }
    map
}

/// Every character of `s` is ASCII.
pub open spec fn ascii_text(s: Seq<char>) -> bool {
    forall|i: int| 0 <= i < s.len() ==> (#[trigger] s[i] as u32) < 128
}

/// `search` occurs in `s` at index `i`, and the character there stands on
/// nesting level `level`.
pub open spec fn on_level_at(s: Seq<char>, level: int, search: Seq<char>, i: int) -> bool {
    &&& 0 <= i < s.len()
    &&& occurs_at(s, search, i)
    &&& level_map_spec(s)[i] == level
}

/// The least index from `k` on at which `search` occurs on nesting level `level`.
pub open spec fn find_on_level_from(s: Seq<char>, level: int, search: Seq<char>, k: int) -> Option<int>
    decreases s.len() - k,
{
    if k < 0 || k >= s.len() {
        None
    } else if on_level_at(s, level, search, k) {
        Some(k)
    } else {
        find_on_level_from(s, level, search, k + 1)
    }
}

/// The least index at which `search` occurs in `s` on nesting level `level`.
pub open spec fn find_on_level_spec(s: Seq<char>, level: int, search: Seq<char>) -> Option<int> {
    find_on_level_from(s, level, search, 0)
}

/// What `find_on_level_from` returns is an occurrence on the level with none
/// before it from `k` on; where it returns nothing there is none from `k` on.
pub proof fn lemma_find_on_level_from(s: Seq<char>, level: int, search: Seq<char>, k: int)
    requires
        0 <= k,
    ensures
        find_on_level_from(s, level, search, k) matches Some(i) ==> {
            &&& k <= i
            &&& on_level_at(s, level, search, i)
            &&& forall|j: int| k <= j < i ==> !on_level_at(s, level, search, j)
        },
        find_on_level_from(s, level, search, k) is None ==> forall|j: int|
            k <= j ==> !on_level_at(s, level, search, j),
    decreases s.len() - k,
{
    if k < s.len() && !on_level_at(s, level, search, k) {
        lemma_find_on_level_from(s, level, search, k + 1);
        assert forall|j: int| k <= j && !(k + 1 <= j) implies !on_level_at(s, level, search, j) by {
            assert(j == k);
        }
    }
}

/// The least index from `start` on at which `pat` occurs in `s` where `map`,
/// the level map of `s`, says `level`.
fn find_on_level_in(s: &Vec<char>, map: &Vec<usize>, level: usize, pat: &Vec<char>, start: usize) -> (r: Option<usize>)
    requires
        map@.len() == s@.len(),
        forall|i: int| 0 <= i < map@.len() ==> map@[i] == level_map_spec(s@)[i],
    ensures
        r matches Some(i) ==> find_on_level_from(s@, level as int, pat@, start as int) == Some(i as int),
        r is None ==> find_on_level_from(s@, level as int, pat@, start as int) is None,
{
    let mut k = start;
    while k < s.len()
        invariant
            start <= k,
            map@.len() == s@.len(),
            forall|i: int| 0 <= i < map@.len() ==> map@[i] == level_map_spec(s@)[i],
            find_on_level_from(s@, level as int, pat@, start as int) == find_on_level_from(
                s@,
                level as int,
                pat@,
                k as int,
            ),
        decreases s.len() - k,
    {
        proof {
            lemma_find_from(s@, pat@, k as int);
        }
        match find_at(s, pat, k) {
            Some(i) => {
                if i >= s.len() {
                    assert(s@.subrange(k as int, k as int) =~= pat@);
                    assert(occurs_at(s@, pat@, k as int));
                    assert(false);
                }
                proof {
                    lemma_skip_off_level(s@, level as int, pat@, k as int, i as int);
                }
                if map[i] == level {
                    return Some(i);
                }
                k = i + 1;
            },
            None => {
                proof {
                    lemma_none_on_level(s@, level as int, pat@, k as int);
                }
                return None;
            },
        }
    }
    None
}

/// Indices before the next occurrence of `search` hold no occurrence on any
/// level, so the search on a level may skip them.
proof fn lemma_skip_off_level(s: Seq<char>, level: int, search: Seq<char>, k: int, i: int)
    requires
        0 <= k <= i < s.len(),
        forall|j: int| k <= j < i ==> !occurs_at(s, search, j),
        occurs_at(s, search, i),
    ensures
        find_on_level_from(s, level, search, k) == if level_map_spec(s)[i] == level {
            Some(i)
        } else {
            find_on_level_from(s, level, search, i + 1)
        },
    decreases i - k,
{
    if k < i {
        lemma_skip_off_level(s, level, search, k + 1, i);
    }
}

/// Where `search` does not occur from `k` on, it occurs on no level there.
proof fn lemma_none_on_level(s: Seq<char>, level: int, search: Seq<char>, k: int)
    requires
        0 <= k,
        forall|j: int| k <= j ==> !occurs_at(s, search, j),
    ensures
        find_on_level_from(s, level, search, k) is None,
    decreases s.len() - k,
{
    if k < s.len() {
        lemma_none_on_level(s, level, search, k + 1);
    }
}

/// The index of the first occurrence of `search` in `string` whose first
/// character stands on bracket nesting level `level`, if any. Indices count
/// characters, which agree with the byte indices of `str` on ASCII text.
pub fn find_on_level(string: &String, level: usize, search: &str) -> (r: Option<usize>)
    requires
        ascii_text(string@),
        levels_nonnegative(string@),
    ensures
        r matches Some(i) ==> find_on_level_spec(string@, level as int, search@) == Some(i as int),
        r is None ==> find_on_level_spec(string@, level as int, search@) is None,
{
    let map = level_map(string);
    let s = chars_of(string.as_str());
    let pat = chars_of(search);
    find_on_level_in(&s, &map, level, &pat, 0)
}

/// The pieces of `s` from index `next` on, cut at each occurrence of `sep`
/// whose first character stands on bracket level zero of the whole text.
pub open spec fn split_level_from(s: Seq<char>, sep: Seq<char>, next: int) -> Seq<Seq<char>>
    decreases (if next < s.len() { s.len() - next } else { 0 }),
{
    if next < 0 || next >= s.len() || sep.len() == 0 {
        Seq::empty()
    } else {
        proof {
            lemma_find_on_level_from(s, 0, sep, next);
        }
        let end = match find_on_level_from(s, 0, sep, next) {
            Some(i) => i,
            None => s.len() as int,
        };
        seq![s.subrange(next, end)] + split_level_from(s, sep, end + sep.len())
    }
}

/// The pieces of `s` between the separators on bracket level zero; a trailing
/// empty piece after a final separator is left out.
pub open spec fn split_level_spec(s: Seq<char>, sep: Seq<char>) -> Seq<Seq<char>> {
    split_level_from(s, sep, 0)
}

/// Cuts `string` at each separator that stands on bracket level zero, so that
/// bracketed parts stay whole. The separator must not be empty unless the
/// string is (elsewhere the cutting never ends).
pub fn split_level(string: &String, seperator: &str) -> (r: Vec<String>)
    requires
        ascii_text(string@),
        levels_nonnegative(string@),
        seperator@.len() > 0 || string@.len() == 0,
    ensures
        r@.map_values(|k: String| k@) == split_level_spec(string@, seperator@),
{
    let map = level_map(string);
    let s = chars_of(string.as_str());
    let sep = chars_of(seperator);
    let mut strings: Vec<String> = Vec::new();
    let mut next: usize = 0;
    while next < s.len()
        invariant
            s@ == string@,
            sep@ == seperator@,
            sep@.len() > 0 || s@.len() == 0,
            map@.len() == s@.len(),
            forall|i: int| 0 <= i < map@.len() ==> map@[i] == level_map_spec(s@)[i],
            split_level_spec(s@, sep@) == strings@.map_values(|k: String| k@) + split_level_from(
                s@,
                sep@,
                next as int,
            ),
        decreases s.len() - next,
    {
        proof {
            lemma_find_on_level_from(s@, 0, sep@, next as int);
        }
        let found = find_on_level_in(&s, &map, 0, &sep, next);
        let end = match found {
            Some(index) => index,
            None => s.len(),
        };
        let piece = string_of_range(&s, next, end);
        let ghost before = strings@;
        strings.push(piece);
        assert(strings@.map_values(|k: String| k@) =~= before.map_values(|k: String| k@).push(
            piece@,
        ));
        match found {
            Some(index) => {
                next = end + sep.len();
            },
            None => {
                assert(split_level_from(s@, sep@, s.len() + sep.len()) =~= Seq::empty());
                assert(split_level_spec(s@, sep@) =~= strings@.map_values(|k: String| k@));
                return strings;
            },
        }
    }
    assert(split_level_from(s@, sep@, next as int) =~= Seq::empty());
    assert(split_level_spec(s@, sep@) =~= strings@.map_values(|k: String| k@));
    strings
}

/// The pieces joined back together, with `sep` between neighbours.
pub open spec fn join_spec(pieces: Seq<Seq<char>>, sep: Seq<char>) -> Seq<char>
    decreases pieces.len(),
{
    if pieces.len() == 0 {
        Seq::empty()
    } else if pieces.len() == 1 {
        pieces[0]
    } else {
        pieces[0] + sep + join_spec(pieces.drop_first(), sep)
    }
}

proof fn lemma_split_from_join(s: Seq<char>, sep: Seq<char>, next: int)
    requires
        sep.len() > 0,
        0 <= next < s.len(),
    ensures
        split_from(s, sep, next).len() > 0,
        join_spec(split_from(s, sep, next), sep) == s.subrange(next, s.len() as int) || join_spec(
            split_from(s, sep, next),
            sep,
        ) + sep == s.subrange(next, s.len() as int),
        forall|k: int|
            0 <= k < split_from(s, sep, next).len() ==> find_spec(
                #[trigger] split_from(s, sep, next)[k],
                sep,
            ) is None,
    decreases s.len() - next,
{
    lemma_find_from(s, sep, next);
    let p = split_from(s, sep, next);
    match find_from(s, sep, next) {
        None => {
            let piece = s.subrange(next, s.len() as int);
            assert(split_from(s, sep, (s.len() + sep.len()) as int) =~= Seq::empty());
            assert(p =~= seq![piece]);
            lemma_no_occurrence_in_part(s, sep, next, s.len() as int);
        },
        Some(i) => {
            let piece = s.subrange(next, i);
            let k = i + sep.len();
            let tail = split_from(s, sep, k);
            assert(p =~= seq![piece] + tail);
            lemma_no_occurrence_in_part(s, sep, next, i);
            assert(s.subrange(i, k) == sep);
            if k >= s.len() {
                assert(tail =~= Seq::empty());
                assert(p =~= seq![piece]);
                assert(piece + sep =~= s.subrange(next, s.len() as int));
            } else {
                lemma_split_from_join(s, sep, k);
                assert(p.drop_first() =~= tail);
                assert(join_spec(p, sep) == piece + sep + join_spec(tail, sep));
                let rest = s.subrange(k, s.len() as int);
                assert(piece + sep + rest =~= s.subrange(next, s.len() as int));
                if join_spec(tail, sep) == rest {
                } else {
                    assert(piece + sep + join_spec(tail, sep) + sep =~= piece + sep + (join_spec(tail, sep) + sep));
                }
                assert forall|t: int| 0 <= t < p.len() implies find_spec(#[trigger] p[t], sep) is None by {
                    if t > 0 {
                        assert(p[t] == tail[t - 1]);
                    }
                }
            }
        },
    }
}

/// `sep` does not occur in `s[from..to]` where it does not occur in `s` at any
/// index from `from` on that ends by `to`.
proof fn lemma_no_occurrence_in_part(s: Seq<char>, sep: Seq<char>, from: int, to: int)
    requires
        0 <= from <= to <= s.len(),
        forall|j: int| from <= j && j + sep.len() <= to ==> !occurs_at(s, sep, j),
    ensures
        find_spec(s.subrange(from, to), sep) is None,
{
    let part = s.subrange(from, to);
    lemma_find_from(part, sep, 0);
    if let Some(j) = find_spec(part, sep) {
        assert(part.subrange(j, j + sep.len()) =~= s.subrange(from + j, from + j + sep.len()));
        assert(occurs_at(s, sep, from + j));
    }
}

/// Splitting loses nothing but possibly one final separator: the pieces, joined
/// with the separator, give the text back, or the text without its final
/// separator; and no piece holds the separator.
pub proof fn lemma_split_join(s: Seq<char>, sep: Seq<char>)
    requires
        sep.len() > 0,
        s.len() > 0,
    ensures
        join_spec(split_spec(s, sep), sep) == s || join_spec(split_spec(s, sep), sep) + sep == s,
        forall|k: int| 0 <= k < split_spec(s, sep).len() ==> find_spec(#[trigger] split_spec(s, sep)[k], sep) is None,
{
    lemma_split_from_join(s, sep, 0);
    assert(s.subrange(0, s.len() as int) =~= s);
}

proof fn lemma_split_level_from_join(s: Seq<char>, sep: Seq<char>, next: int)
    requires
        sep.len() > 0,
        0 <= next < s.len(),
    ensures
        split_level_from(s, sep, next).len() > 0,
        join_spec(split_level_from(s, sep, next), sep) == s.subrange(next, s.len() as int) || join_spec(
            split_level_from(s, sep, next),
            sep,
        ) + sep == s.subrange(next, s.len() as int),
    decreases s.len() - next,
{
    lemma_find_on_level_from(s, 0, sep, next);
    let p = split_level_from(s, sep, next);
    match find_on_level_from(s, 0, sep, next) {
        None => {
            let piece = s.subrange(next, s.len() as int);
            assert(split_level_from(s, sep, (s.len() + sep.len()) as int) =~= Seq::empty());
            assert(p =~= seq![piece]);
            assert(piece =~= s.subrange(next, s.len() as int));
        },
        Some(i) => {
            let piece = s.subrange(next, i);
            let k = i + sep.len();
            let tail = split_level_from(s, sep, k);
            assert(p =~= seq![piece] + tail);
            assert(s.subrange(i, k) == sep);
            if k >= s.len() {
                assert(tail =~= Seq::empty());
                assert(p =~= seq![piece]);
                assert(piece + sep =~= s.subrange(next, s.len() as int));
            } else {
                lemma_split_level_from_join(s, sep, k);
                assert(p.drop_first() =~= tail);
                assert(join_spec(p, sep) == piece + sep + join_spec(tail, sep));
                let rest = s.subrange(k, s.len() as int);
                assert(piece + sep + rest =~= s.subrange(next, s.len() as int));
                if join_spec(tail, sep) == rest {
                } else {
                    assert(piece + sep + join_spec(tail, sep) + sep =~= piece + sep + (join_spec(tail, sep) + sep));
                }
            }
        },
    }
}

/// Splitting on level zero loses nothing but possibly one final separator:
/// the pieces, joined with the separator, give the text back, or the text
/// without its final separator.
pub proof fn lemma_split_level_join(s: Seq<char>, sep: Seq<char>)
    requires
        sep.len() > 0,
        s.len() > 0,
    ensures
        join_spec(split_level_spec(s, sep), sep) == s || join_spec(split_level_spec(s, sep), sep) + sep == s,
{
    lemma_split_level_from_join(s, sep, 0);
    assert(s.subrange(0, s.len() as int) =~= s);
}

/// The character opens or closes a bracket or a string literal.
pub open spec fn is_structural(c: char) -> bool {
    c == '"' || c == '\'' || c == '(' || c == '[' || c == '{' || c == ')' || c == ']' || c == '}'
}

/// In a text without brackets and quotes everything stands on level zero.
proof fn lemma_flat_levels(s: Seq<char>, n: int)
    requires
        0 <= n <= s.len(),
        forall|i: int| 0 <= i < s.len() ==> !is_structural(#[trigger] s[i]),
    ensures
        scan_state(s, n) == (0int, Option::<char>::None),
    decreases n,
{
    if n > 0 {
        lemma_flat_levels(s, n - 1);
    }
}

/// On a flat text the search on level zero is the plain search.
proof fn lemma_flat_find(s: Seq<char>, sep: Seq<char>, k: int)
    requires
        0 <= k,
        sep.len() > 0,
        forall|i: int| 0 <= i < s.len() ==> !is_structural(#[trigger] s[i]),
    ensures
        find_on_level_from(s, 0, sep, k) == find_from(s, sep, k),
    decreases s.len() + 1 - k,
{
    if k < s.len() {
        lemma_flat_levels(s, k + 1);
        assert(level_map_spec(s)[k] == 0);
        lemma_flat_find(s, sep, k + 1);
    }
}

proof fn lemma_flat_split_from(s: Seq<char>, sep: Seq<char>, next: int)
    requires
        0 <= next,
        sep.len() > 0,
        forall|i: int| 0 <= i < s.len() ==> !is_structural(#[trigger] s[i]),
    ensures
        split_level_from(s, sep, next) == split_from(s, sep, next),
    decreases (if next < s.len() { s.len() - next } else { 0 }),
{
    if next < s.len() {
        lemma_flat_find(s, sep, next);
        lemma_find_from(s, sep, next);
        let end = match find_from(s, sep, next) {
            Some(i) => i,
            None => s.len() as int,
        };
        lemma_flat_split_from(s, sep, end + sep.len());
    }
}

/// In a text without brackets or quotes, splitting on level zero is plain
/// splitting.
pub proof fn lemma_split_level_flat(s: Seq<char>, sep: Seq<char>)
    requires
        sep.len() > 0,
        forall|i: int| 0 <= i < s.len() ==> !is_structural(#[trigger] s[i]),
    ensures
        split_level_spec(s, sep) == split_spec(s, sep),
{
    lemma_flat_split_from(s, sep, 0);
}

/// The character opens a bracket.
pub open spec fn opens_bracket() -> spec_fn(char) -> bool {
    |c: char| c == '(' || c == '[' || c == '{'
}

/// The character closes a bracket.
pub open spec fn closes_bracket() -> spec_fn(char) -> bool {
    |c: char| c == ')' || c == ']' || c == '}'
}

/// The character starts or ends a string literal.
pub open spec fn is_quote() -> spec_fn(char) -> bool {
    |c: char| c == '"' || c == '\''
}

proof fn lemma_levels_count(s: Seq<char>, n: int)
    requires
        0 <= n <= s.len(),
        count_where(s, is_quote()) == 0,
    ensures
        scan_state(s, n) == (count_where(s.take(n), opens_bracket()) - count_where(s.take(n), closes_bracket()), Option::<char>::None),
    decreases n,
{
    if n > 0 {
        lemma_levels_count(s, n - 1);
        assert(s.take(n).drop_last() =~= s.take(n - 1));
        assert(s.take(n).last() == s[n - 1]);
        crate::effects::lemma_count_zero(s, is_quote());
        assert(!is_quote()(s[n - 1]));
    }
}

/// Outside string literals, the nesting level after a character is the number
/// of brackets opened up to and including it, less the number closed: in a
/// text without quotes, `level_map` counts brackets.
pub proof fn lemma_level_map_counts_brackets(s: Seq<char>, i: int)
    requires
        0 <= i < s.len(),
        count_where(s, is_quote()) == 0,
    ensures
        level_map_spec(s)[i] == count_where(s.take(i + 1), opens_bracket()) - count_where(s.take(i + 1), closes_bracket()),
{
    lemma_levels_count(s, i + 1);
}

/// The text `= <value>;`.
pub open spec fn assignment(value: Seq<char>) -> Seq<char> {
    seq!['=', ' '] + value + seq![';']
}

/// The value `get_variable` finds is the text between a `"= "` and the first
/// `;` after the variable's declaration: it holds no `;`, and `"= "`, the
/// value and `;` stand together in the text after the declaration.
pub proof fn lemma_variable_value(s: Seq<char>, name: Seq<char>)
    requires
        get_variable_ok(s, name),
    ensures
        get_variable_spec(s, name) matches Some(v) ==> {
            &&& !v.contains(';')
            &&& exists|d: int, e: int| #![trigger occurs_at(s, declaration(name), d), occurs_at(s, assignment(v), e)]
                d <= e && occurs_at(s, declaration(name), d) && occurs_at(s, assignment(v), e)
        },
{
    lemma_find_from(s, declaration(name), 0);
    if let Some(d) = find_spec(s, declaration(name)) {
        let rest = s.subrange(d, s.len() as int);
        lemma_find_from(rest, seq!['=', ' '], 0);
        lemma_find_from(rest, seq![';'], 0);
        if let Some(v) = get_variable_spec(s, name) {
            let eq = find_spec(rest, seq!['=', ' ']).unwrap();
            let semi = find_spec(rest, seq![';']).unwrap();
            assert(v == rest.subrange(eq + 2, semi));
            assert forall|j: int| 0 <= j < v.len() implies v[j] != ';' by {
                assert(v[j] == rest[eq + 2 + j]);
                if v[j] == ';' {
                    assert(rest.subrange(eq + 2 + j, eq + 3 + j) =~= seq![';']);
                    assert(occurs_at(rest, seq![';'], eq + 2 + j));
                }
            }
            let e = d + eq;
            let pat = assignment(v);
            assert(rest.subrange(eq, eq + 2) == seq!['=', ' ']);
            assert(rest.subrange(semi, semi + 1) == seq![';']);
            assert(s.subrange(e, e + pat.len()) =~= pat) by {
                assert forall|j: int| 0 <= j < pat.len() implies s.subrange(e, e + pat.len())[j] == pat[j] by {
                    assert(s[e + j] == rest[eq + j]);
                    if j < 2 {
                        assert(rest.subrange(eq, eq + 2)[j] == rest[eq + j]);
                    } else if j < 2 + v.len() {
                    } else {
                        assert(eq + j == semi);
                        assert(rest.subrange(semi, semi + 1)[0] == rest[semi]);
                    }
                }
            }
            assert(occurs_at(s, declaration(name), d));
            assert(occurs_at(s, pat, e));
        }
    }
}

} // verus!
