//! The names under which a function can be asked for.
use crate::model::{symbol_parts, SymbolId, SymbolModel};
use crate::text::{
    chars_of, matches_at, rsplit_once, rsplit_text_once, same_text, slice_text, split_once,
    split_text_once, starts_with, strip_prefix, text_of, texts,
};
use vstd::prelude::*;

verus! {

/// Where the parenthesis opens that the last `)` before `end` closes, with
/// `depth` more of them open. None where an opening one is left over.
pub open spec fn last_group_start(label: Seq<char>, end: int, depth: nat) -> Option<int>
    decreases end,
{
    if end <= 0 {
        None
    } else if label[end - 1] == ')' {
        last_group_start(label, end - 1, depth + 1)
    } else if label[end - 1] == '(' {
        if depth == 0 {
            None
        } else if depth == 1 {
            Some(end - 1)
        } else {
            last_group_start(label, end - 1, (depth - 1) as nat)
        }
    } else {
        last_group_start(label, end - 1, depth)
    }
}

/// A label without its last argument list and what follows it.
pub open spec fn callable_part(label: Seq<char>) -> Seq<char> {
    match last_group_start(label, label.len() as int, 0) {
        Some(index) => label.take(index),
        None => label,
    }
}

/// A label without its last argument list and what follows it.
pub fn callable_prefix(label: &str) -> (result: String)
    ensures
        result@ == callable_part(label@),
{
    let characters = chars_of(label);
    let mut depth: usize = 0;
    let mut end: usize = characters.len();
    while end > 0
        invariant
            end + depth <= characters@.len(),
            characters@.len() <= usize::MAX,
            characters@ == label@,
            last_group_start(label@, end as int, depth as nat) == last_group_start(
                label@,
                label@.len() as int,
                0,
            ),
        decreases end,
    {
        let character: char = characters[end - 1];
        if character == ')' {
            depth += 1;
        } else if character == '(' {
            if depth == 0 {
                return text_of(characters.as_slice());
            }
            depth -= 1;
            if depth == 0 {
                proof {
                    assert(label@.subrange(0, end - 1) =~= label@.take(end - 1));
                }
                return slice_text(characters.as_slice(), 0, end - 1);
            }
        }
        end -= 1;
    }
    text_of(characters.as_slice())
}

/// A name without the mark of the call context that it was specialized for.
pub open spec fn without_context(value: Seq<char>) -> Seq<char> {
    match split_once(value, "#ctx["@) {
        Some((base, _)) => base,
        None => value,
    }
}

/// A name without the mark of the call context that it was specialized for.
pub fn strip_context_suffix(value: &str) -> (result: String)
    ensures
        result@ == without_context(value@),
{
    match split_text_once(value, "#ctx[") {
        Some((base, _)) => base,
        None => value.to_owned(),
    }
}

/// What is left of `value` from `index` on without what stands in angle
/// brackets, with `depth` of them open.
pub open spec fn without_generics_from(value: Seq<char>, index: nat, depth: nat) -> Seq<char>
    decreases value.len() - index,
{
    if index >= value.len() {
        Seq::empty()
    } else {
        let character = value[index as int];
        if character == '<' {
            without_generics_from(value, index + 1, depth + 1)
        } else if character == '>' && depth > 0 {
            without_generics_from(value, index + 1, (depth - 1) as nat)
        } else if depth == 0 {
            seq![character] + without_generics_from(value, index + 1, depth)
        } else {
            without_generics_from(value, index + 1, depth)
        }
    }
}

/// A name without its generic arguments.
pub open spec fn without_generics(value: Seq<char>) -> Seq<char> {
    without_generics_from(value, 0, 0)
}

/// A name without its generic arguments.
pub fn strip_generic_arguments(value: &str) -> (result: String)
    ensures
        result@ == without_generics(value@),
{
    let characters = chars_of(value);
    let mut stripped = String::new();
    let length: usize = characters.len();
    let mut depth: usize = 0;
    let mut index: usize = 0;
    while index < length
        invariant
            depth <= index <= length,
            length == characters@.len(),
            characters@ == value@,
            stripped@ + without_generics_from(value@, index as nat, depth as nat)
                == without_generics(value@),
        decreases characters@.len() - index,
    {
        let character: char = characters[index];
        if character == '<' {
            depth += 1;
        } else if character == '>' && depth > 0 {
            depth -= 1;
        } else if depth == 0 {
            let ghost before = stripped@;
            stripped.push(character);
            proof {
                let rest = without_generics_from(value@, (index + 1) as nat, 0);
                assert(before + (seq![character] + rest) =~= stripped@ + rest);
            }
        }
        index += 1;
    }
    proof {
        assert(stripped@ + Seq::<char>::empty() =~= stripped@);
    }
    stripped
}

/// Where the angle bracket closes that closes all, from `index` on with
/// `depth` of them open. None where one closes too many.
pub open spec fn angle_end(value: Seq<char>, index: nat, depth: nat) -> Option<int>
    decreases value.len() - index,
{
    if index >= value.len() {
        None
    } else if value[index as int] == '<' {
        angle_end(value, index + 1, depth + 1)
    } else if value[index as int] == '>' {
        if depth == 0 {
            None
        } else if depth == 1 {
            Some(index as int)
        } else {
            angle_end(value, index + 1, (depth - 1) as nat)
        }
    } else {
        angle_end(value, index + 1, depth)
    }
}

fn find_angle_end(value: &Vec<char>) -> (result: Option<usize>)
    ensures
        match result {
            Some(index) => angle_end(value@, 0, 0) == Some(index as int) && index < value@.len(),
            None => angle_end(value@, 0, 0) is None,
        },
{
    let length: usize = value.len();
    let mut depth: usize = 0;
    let mut index: usize = 0;
    while index < length
        invariant
            depth <= index <= length,
            length == value@.len(),
            angle_end(value@, index as nat, depth as nat) == angle_end(value@, 0, 0),
        decreases value@.len() - index,
    {
        let character: char = value[index];
        if character == '<' {
            depth += 1;
        } else if character == '>' {
            if depth == 0 {
                return None;
            }
            depth -= 1;
            if depth == 0 {
                return Some(index);
            }
        }
        index += 1;
    }
    None
}

/// The parts of a name of the form `<Type as Trait>::method`.
pub open spec fn trait_callable(value: Seq<char>) -> Option<(Seq<char>, Seq<char>, Seq<char>)> {
    if !starts_with(value, "<"@) {
        None
    } else {
        match angle_end(value, 0, 0) {
            None => None,
            Some(end) => match strip_prefix(value.skip(end + 1), "::"@) {
                None => None,
                Some(method) => match rsplit_once(value.subrange(1, end), " as "@) {
                    None => None,
                    Some((self_type, trait_name)) => Some((self_type, trait_name, method)),
                },
            },
        }
    }
}

/// The characters of three strings.
pub open spec fn optional_triple(
    triple: Option<(String, String, String)>,
) -> Option<(Seq<char>, Seq<char>, Seq<char>)> {
    match triple {
        Some((first, second, third)) => Some((first@, second@, third@)),
        None => None,
    }
}

/// The parts of a name of the form `<Type as Trait>::method`.
pub fn qualified_trait_callable(value: &str) -> (result: Option<(String, String, String)>)
    ensures
        optional_triple(result) == trait_callable(value@),
{
    let characters = chars_of(value);
    let open = chars_of("<");
    proof {
        reveal_strlit("<");
        reveal_strlit("::");
    }
    if !matches_at(characters.as_slice(), open.as_slice(), 0) {
        return None;
    }
    let end: usize = match find_angle_end(&characters) {
        Some(end) => end,
        None => {
            return None;
        },
    };
    proof {
        assert(value@.subrange(0, 1)[0] == "<"@[0]);
        assert(value@[0] == '<');
        assert(angle_end(value@, 1, 1) == angle_end(value@, 0, 0));
        angle_end_is_not_before(value@, 1, 1);
    }
    let colons = chars_of("::");
    let length: usize = characters.len();
    let ghost tail = value@.skip(end + 1);
    let rest = text_of_tail(&characters, end + 1);
    let rest_chars = chars_of(rest.as_str());
    if !matches_at(rest_chars.as_slice(), colons.as_slice(), 0) {
        return None;
    }
    let method = slice_text(rest_chars.as_slice(), 2, rest_chars.len());
    proof {
        assert(tail.subrange(2, tail.len() as int) =~= tail.skip(2));
    }
    let qualification = slice_text(characters.as_slice(), 1, end);
    match rsplit_text_once(qualification.as_str(), " as ") {
        Some((self_type, trait_name)) => Some((self_type, trait_name, method)),
        None => None,
    }
}

proof fn angle_end_is_not_before(value: Seq<char>, index: nat, depth: nat)
    ensures
        angle_end(value, index, depth) matches Some(end) ==> index <= end < value.len(),
    decreases value.len() - index,
{
    if index >= value.len() {
    } else if value[index as int] == '<' {
        angle_end_is_not_before(value, index + 1, depth + 1);
    } else if value[index as int] == '>' {
        if depth > 1 {
            angle_end_is_not_before(value, index + 1, (depth - 1) as nat);
        }
    } else {
        angle_end_is_not_before(value, index + 1, depth);
    }
}

/// The characters from `start` on, as a string.
pub fn text_of_tail(characters: &Vec<char>, start: usize) -> (result: String)
    requires
        start <= characters@.len(),
    ensures
        result@ == characters@.skip(start as int),
{
    proof {
        assert(characters@.subrange(start as int, characters@.len() as int) =~= characters@.skip(
            start as int,
        ));
    }
    slice_text(characters.as_slice(), start, characters.len())
}

/// The names that a callable goes by, without generic arguments: for a method
/// of a trait, by type and trait, by type, and by trait.
pub open spec fn aliases(value: Seq<char>) -> Seq<Seq<char>> {
    match trait_callable(value) {
        Some((self_type, trait_name, method)) => {
            let owner = without_generics(self_type);
            let interface = without_generics(trait_name);
            let name = without_generics(method);
            seq![
                owner + " as "@ + interface + "::"@ + name,
                owner + "::"@ + name,
                interface + "::"@ + name,
            ]
        },
        None => {
            let callable = without_generics(value);
            match split_once(callable, " as "@) {
                Some((self_type, trait_method)) => match rsplit_once(trait_method, "::"@) {
                    Some((_, method)) => seq![
                        callable,
                        self_type + "::"@ + method,
                        trait_method,
                    ],
                    None => seq![callable],
                },
                None => seq![callable],
            }
        },
    }
}

fn with_colons(left: &str, right: &str) -> (result: String)
    ensures
        result@ == left@ + "::"@ + right@,
{
    let mut result = left.to_owned();
    result.append("::");
    result.append(right);
    result
}

/// The names that a callable goes by, without generic arguments.
pub fn callable_aliases(value: &str) -> (result: Vec<String>)
    ensures
        texts(result@) == aliases(value@),
{
    let mut result: Vec<String> = Vec::new();
    if let Some((self_type, trait_name, method)) = qualified_trait_callable(value) {
        let owner = strip_generic_arguments(self_type.as_str());
        let interface = strip_generic_arguments(trait_name.as_str());
        let name = strip_generic_arguments(method.as_str());
        let mut full = owner.clone();
        full.append(" as ");
        full.append(interface.as_str());
        full.append("::");
        full.append(name.as_str());
        result.push(full);
        result.push(with_colons(owner.as_str(), name.as_str()));
        result.push(with_colons(interface.as_str(), name.as_str()));
        proof {
            assert(texts(result@) =~= aliases(value@));
        }
        return result;
    }
    let callable = strip_generic_arguments(value);
    if let Some((self_type, trait_method)) = split_text_once(callable.as_str(), " as ") {
        if let Some((_, method)) = rsplit_text_once(trait_method.as_str(), "::") {
            result.push(callable);
            result.push(with_colons(self_type.as_str(), method.as_str()));
            result.push(trait_method);
            proof {
                assert(texts(result@) =~= aliases(value@));
            }
            return result;
        }
    }
    result.push(callable);
    proof {
        assert(texts(result@) =~= aliases(value@));
    }
    result
}

/// A container without the trait that it implements.
pub open spec fn container_base(container: Seq<char>) -> Seq<char> {
    match split_once(container, " as "@) {
        Some((base, _)) => base,
        None => container,
    }
}

/// A container without the trait that it implements.
pub fn base_container(container: &str) -> (result: String)
    ensures
        result@ == container_base(container@),
{
    match split_text_once(container, " as ") {
        Some((base, _)) => base,
        None => container.to_owned(),
    }
}

/// The parts among the first `count` that name something: not `crate`, `self`
/// or `super`.
pub open spec fn naming_parts(parts: Seq<Seq<char>>, count: nat) -> Seq<Seq<char>>
    decreases count,
{
    if count == 0 {
        Seq::empty()
    } else {
        let before = naming_parts(parts, (count - 1) as nat);
        let part = parts[count - 1];
        if part == "crate"@ || part == "self"@ || part == "super"@ {
            before
        } else {
            before.push(part)
        }
    }
}

/// Whether a path names a symbol: its parts are the last parts of the symbol.
pub open spec fn path_names(symbol: SymbolModel, path: Seq<Seq<char>>) -> bool {
    let parts = naming_parts(path, path.len());
    let full = symbol_parts(symbol);
    parts.len() <= full.len() && full.skip(full.len() - parts.len()) == parts
}

/// Whether a path names a symbol: its parts are the last parts of the symbol.
pub fn path_suffix_matches(candidate: &SymbolId, raw: &Vec<String>) -> (result: bool)
    ensures
        result == path_names(candidate@, texts(raw@)),
{
    let mut parts: Vec<String> = Vec::new();
    let mut index: usize = 0;
    proof {
        assert(texts(parts@) =~= naming_parts(texts(raw@), 0));
    }
    while index < raw.len()
        invariant
            index <= raw@.len(),
            texts(parts@) == naming_parts(texts(raw@), index as nat),
        decreases raw@.len() - index,
    {
        let part = raw[index].as_str();
        if !same_text(part, "crate") && !same_text(part, "self") && !same_text(part, "super") {
            let ghost before = texts(parts@);
            parts.push(raw[index].clone());
            proof {
                assert(texts(parts@) =~= before.push(raw@[index as int]@));
            }
        }
        index += 1;
    }
    let full = candidate.owned_parts();
    let ghost wanted = texts(parts@);
    let ghost all = texts(full@);
    if parts.len() > full.len() {
        return false;
    }
    let total: usize = full.len();
    let offset: usize = total - parts.len();
    let mut k: usize = 0;
    while k < parts.len()
        invariant
            k <= parts@.len(),
            offset + parts@.len() == total == full@.len(),
            wanted == texts(parts@),
            all == texts(full@),
            wanted == naming_parts(texts(raw@), raw@.len()),
            all == symbol_parts(candidate@),
            forall|m: int| 0 <= m < k ==> #[trigger] wanted[m] == all[offset + m],
        decreases parts@.len() - k,
    {
        if !same_text(full[offset + k].as_str(), parts[k].as_str()) {
            proof {
                assert(all.skip(offset as int)[k as int] != wanted[k as int]);
            }
            return false;
        }
        k += 1;
    }
    proof {
        assert(all.skip(offset as int) =~= wanted);
    }
    true
}

} // verus!
