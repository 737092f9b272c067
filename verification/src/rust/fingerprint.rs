//! What the analysis of a Rust project depends on, in one digest.
use crate::digest::{sha256_hex, sha256_text};
use crate::lists::views;
use crate::text::{
    concat_texts, decimal, decimal_text, optional, same_text, starts_with, starts_with_text,
};
use vstd::prelude::*;
use vstd::utf8::encode_utf8;

verus! {

/// The form of what is kept of an analysis.
pub const RUST_SEMANTIC_CACHE_SCHEMA: u32 = 8;

/// The lowest `count` bytes of a number, the lowest first.
pub open spec fn low_bytes(value: nat, count: nat) -> Seq<u8>
    decreases count,
{
    if count == 0 {
        Seq::empty()
    } else {
        seq![(value % 256) as u8] + low_bytes(value / 256, (count - 1) as nat)
    }
}

fn push_low_bytes(bytes: &mut Vec<u8>, value: u64, count: usize)
    ensures
        final(bytes)@ == old(bytes)@ + low_bytes(value as nat, count as nat),
{
    let ghost start = bytes@;
    let mut rest: u64 = value;
    let mut left: usize = count;
    while left > 0
        invariant
            bytes@ + low_bytes(rest as nat, left as nat) == start + low_bytes(
                value as nat,
                count as nat,
            ),
        decreases left,
    {
        let ghost before = bytes@;
        let ghost later = low_bytes((rest / 256) as nat, (left - 1) as nat);
        bytes.push((rest % 256) as u8);
        proof {
            assert(low_bytes(rest as nat, left as nat) == seq![(rest % 256) as u8] + later);
            assert(bytes@ + later =~= before + (seq![(rest % 256) as u8] + later));
        }
        rest = rest / 256;
        left -= 1;
    }
    proof {
        assert(bytes@ + low_bytes(rest as nat, 0) =~= bytes@);
    }
}

/// Bytes behind their length, so that what follows cannot be taken for them.
pub open spec fn framed(bytes: Seq<u8>) -> Seq<u8> {
    low_bytes(bytes.len(), 8) + bytes
}

fn append_bytes(target: &mut Vec<u8>, bytes: &[u8])
    ensures
        final(target)@ == old(target)@ + bytes@,
{
    let ghost start = target@;
    let mut index: usize = 0;
    proof {
        assert(bytes@.take(0) =~= Seq::empty());
    }
    while index < bytes.len()
        invariant
            index <= bytes@.len(),
            target@ == start + bytes@.take(index as int),
        decreases bytes@.len() - index,
    {
        target.push(bytes[index]);
        proof {
            assert(bytes@.take(index + 1) =~= bytes@.take(index as int).push(
                bytes@[index as int],
            ));
        }
        index += 1;
    }
    proof {
        assert(bytes@.take(index as int) =~= bytes@);
    }
}

/// Adds bytes behind their length.
pub fn hash_cache_bytes(target: &mut Vec<u8>, bytes: &[u8])
    ensures
        final(target)@ == old(target)@ + framed(bytes@),
{
    let ghost start = target@;
    push_low_bytes(target, bytes.len() as u64, 8);
    append_bytes(target, bytes);
    proof {
        assert(target@ =~= start + framed(bytes@));
    }
}

/// Framed bytes are read back: neither the bytes nor what follows can be
/// taken for something else.
pub proof fn frames_are_told_apart(
    left: Seq<u8>,
    left_rest: Seq<u8>,
    right: Seq<u8>,
    right_rest: Seq<u8>,
)
    requires
        framed(left) + left_rest == framed(right) + right_rest,
        left.len() <= u64::MAX,
        right.len() <= u64::MAX,
    ensures
        left == right,
        left_rest == right_rest,
{
    low_bytes_length(left.len(), 8);
    low_bytes_length(right.len(), 8);
    let whole = framed(left) + left_rest;
    assert(whole.take(8) =~= low_bytes(left.len(), 8));
    assert(whole.take(8) =~= low_bytes(right.len(), 8));
    assert(left.len() < 0x1_0000_0000_0000_0000 && right.len() < 0x1_0000_0000_0000_0000);
    low_bytes_differ(left.len(), right.len(), 8);
    assert(whole.subrange(8, 8 + left.len() as int) =~= left);
    assert(whole.subrange(8, 8 + right.len() as int) =~= right);
    assert(whole.skip(8 + left.len() as int) =~= left_rest);
    assert(whole.skip(8 + right.len() as int) =~= right_rest);
}

proof fn low_bytes_length(value: nat, count: nat)
    ensures
        low_bytes(value, count).len() == count,
    decreases count,
{
    if count > 0 {
        low_bytes_length(value / 256, (count - 1) as nat);
    }
}

/// The number of values that some bytes can take.
pub open spec fn byte_range(count: nat) -> nat
    decreases count,
{
    if count == 0 {
        1
    } else {
        256 * byte_range((count - 1) as nat)
    }
}

proof fn low_bytes_differ_within(left: nat, right: nat, count: nat)
    requires
        left < byte_range(count),
        right < byte_range(count),
        low_bytes(left, count) == low_bytes(right, count),
    ensures
        left == right,
    decreases count,
{
    if count > 0 {
        let shorter = (count - 1) as nat;
        let first = low_bytes(left, count);
        let second = low_bytes(right, count);
        assert(first[0] == (left % 256) as u8);
        assert(second[0] == (right % 256) as u8);
        assert(first.skip(1) =~= low_bytes(left / 256, shorter));
        assert(second.skip(1) =~= low_bytes(right / 256, shorter));
        assert(left / 256 < byte_range(shorter));
        assert(right / 256 < byte_range(shorter));
        low_bytes_differ_within(left / 256, right / 256, shorter);
        assert(left % 256 == right % 256);
    }
}

proof fn low_bytes_differ(left: nat, right: nat, count: nat)
    requires
        count == 8,
        left < 0x1_0000_0000_0000_0000,
        right < 0x1_0000_0000_0000_0000,
        low_bytes(left, count) == low_bytes(right, count),
    ensures
        left == right,
{
    assert(byte_range(8) == 0x1_0000_0000_0000_0000) by {
        reveal_with_fuel(byte_range, 9);
    }
    low_bytes_differ_within(left, right, count);
}

/// What a tool says of itself.
#[derive(Debug)]
pub struct CommandIdentity {
    pub program: String,
    pub stdout: Vec<u8>,
    pub stderr: Vec<u8>,
    pub code: Option<i32>,
}

/// What a tool says of itself, as bytes.
pub open spec fn identity_bytes(identity: CommandIdentity) -> Seq<u8> {
    let code = match identity.code {
        Some(code) => code,
        None => -1i32,
    };
    framed(encode_utf8(identity.program@)) + framed(identity.stdout@) + framed(identity.stderr@)
        + framed(low_bytes((code as u32) as nat, 4))
}

fn hash_command_identity(target: &mut Vec<u8>, identity: &CommandIdentity)
    ensures
        final(target)@ == old(target)@ + identity_bytes(*identity),
{
    let ghost start = target@;
    hash_cache_bytes(target, identity.program.as_str().as_bytes());
    hash_cache_bytes(target, identity.stdout.as_slice());
    hash_cache_bytes(target, identity.stderr.as_slice());
    let code: i32 = match identity.code {
        Some(code) => code,
        None => -1,
    };
    let mut bytes: Vec<u8> = Vec::new();
    push_low_bytes(&mut bytes, (code as u32) as u64, 4);
    proof {
        assert(bytes@ =~= low_bytes((code as u32) as nat, 4));
    }
    hash_cache_bytes(target, bytes.as_slice());
    proof {
        assert(target@ =~= start + identity_bytes(*identity));
    }
}

/// Whether a variable of the environment has a say in how Rust is built.
pub open spec fn is_build_variable(key: Seq<char>) -> bool {
    ||| key == "PATH"@
    ||| key == "HOME"@
    ||| key == "RUSTFLAGS"@
    ||| key == "RUSTDOCFLAGS"@
    ||| key == "RUSTC"@
    ||| key == "RUSTUP_HOME"@
    ||| key == "RUSTUP_TOOLCHAIN"@
    ||| key == "CARGO_HOME"@
    ||| key == "CARGO_BUILD_TARGET"@
    ||| key == "CARGO_ENCODED_RUSTFLAGS"@
    ||| key == "CC"@
    ||| key == "CXX"@
    ||| key == "AR"@
    ||| key == "CFLAGS"@
    ||| key == "CXXFLAGS"@
    ||| key == "LDFLAGS"@
    ||| key == "MACOSX_DEPLOYMENT_TARGET"@
    ||| key == "SDKROOT"@
    ||| key == "PKG_CONFIG_PATH"@
    ||| starts_with(key, "CARGO_PROFILE_"@)
    ||| starts_with(key, "CARGO_TARGET_"@)
    ||| starts_with(key, "RUSTC_"@)
    ||| starts_with(key, "CC_"@)
    ||| starts_with(key, "CXX_"@)
    ||| starts_with(key, "AR_"@)
    ||| starts_with(key, "CFLAGS_"@)
    ||| starts_with(key, "CXXFLAGS_"@)
    ||| starts_with(key, "PKG_CONFIG_"@)
}

/// Whether a variable of the environment has a say in how Rust is built. One
/// whose name is no text may have.
pub fn rust_build_environment_key(key: Option<&str>) -> (result: bool)
    ensures
        match key {
            Some(key) => result == is_build_variable(key@),
            None => result,
        },
{
    let key = match key {
        Some(key) => key,
        None => {
            return true;
        },
    };
    same_text(key, "PATH") || same_text(key, "HOME") || same_text(key, "RUSTFLAGS") || same_text(
        key,
        "RUSTDOCFLAGS",
    ) || same_text(key, "RUSTC") || same_text(key, "RUSTUP_HOME") || same_text(
        key,
        "RUSTUP_TOOLCHAIN",
    ) || same_text(key, "CARGO_HOME") || same_text(key, "CARGO_BUILD_TARGET") || same_text(
        key,
        "CARGO_ENCODED_RUSTFLAGS",
    ) || same_text(key, "CC") || same_text(key, "CXX") || same_text(key, "AR") || same_text(
        key,
        "CFLAGS",
    ) || same_text(key, "CXXFLAGS") || same_text(key, "LDFLAGS") || same_text(
        key,
        "MACOSX_DEPLOYMENT_TARGET",
    ) || same_text(key, "SDKROOT") || same_text(key, "PKG_CONFIG_PATH") || starts_with_text(
        key,
        "CARGO_PROFILE_",
    ) || starts_with_text(key, "CARGO_TARGET_") || starts_with_text(key, "RUSTC_")
        || starts_with_text(key, "CC_") || starts_with_text(key, "CXX_") || starts_with_text(
        key,
        "AR_",
    ) || starts_with_text(key, "CFLAGS_") || starts_with_text(key, "CXXFLAGS_")
        || starts_with_text(key, "PKG_CONFIG_")
}

/// A variable of the environment. Its name is `None` where it is no text.
#[derive(Debug)]
pub struct EnvironmentVariable {
    pub name: Option<String>,
    pub key: Vec<u8>,
    pub value: Vec<u8>,
}

#[verifier::ext_equal]
pub struct VariableModel {
    pub name: Option<Seq<char>>,
    pub key: Seq<u8>,
    pub value: Seq<u8>,
}

impl View for EnvironmentVariable {
    type V = VariableModel;

    open spec fn view(&self) -> VariableModel {
        VariableModel { name: optional(self.name), key: self.key@, value: self.value@ }
    }
}

/// The bytes of a variable: its name and its value.
pub open spec fn variable_pair(variable: VariableModel) -> (Seq<u8>, Seq<u8>) {
    (variable.key, variable.value)
}

/// The bytes of some variables.
spec fn pairs_of(variables: Seq<&EnvironmentVariable>) -> Seq<(Seq<u8>, Seq<u8>)> {
    variables.map_values(|variable: &EnvironmentVariable| variable_pair(variable@))
}

/// Whether some bytes come before others, from `index` on.
pub open spec fn bytes_less_from(left: Seq<u8>, right: Seq<u8>, index: int) -> bool
    decreases left.len() - index,
{
    if index < 0 || index >= left.len() {
        0 <= index < right.len()
    } else if index >= right.len() {
        false
    } else if left[index] != right[index] {
        left[index] < right[index]
    } else {
        bytes_less_from(left, right, index + 1)
    }
}

/// Whether some bytes come before others.
pub open spec fn bytes_less(left: Seq<u8>, right: Seq<u8>) -> bool {
    bytes_less_from(left, right, 0)
}

fn bytes_before(left: &Vec<u8>, right: &Vec<u8>) -> (result: bool)
    ensures
        result == bytes_less(left@, right@),
{
    let mut index: usize = 0;
    while index < left.len() && index < right.len()
        invariant
            index <= left@.len(),
            index <= right@.len(),
            bytes_less_from(left@, right@, index as int) == bytes_less(left@, right@),
        decreases left@.len() - index,
    {
        if left[index] != right[index] {
            return left[index] < right[index];
        }
        index += 1;
    }
    index >= left.len() && index < right.len()
}

fn bytes_same(left: &Vec<u8>, right: &Vec<u8>) -> (result: bool)
    ensures
        result == (left@ == right@),
{
    if left.len() != right.len() {
        return false;
    }
    let mut index: usize = 0;
    while index < left.len()
        invariant
            index <= left@.len(),
            left@.len() == right@.len(),
            forall|k: int| 0 <= k < index ==> left@[k] == right@[k],
        decreases left@.len() - index,
    {
        if left[index] != right[index] {
            return false;
        }
        index += 1;
    }
    proof {
        assert(left@ =~= right@);
    }
    true
}

/// Whether a variable comes before another: by its name and its value.
pub open spec fn variable_less(left: (Seq<u8>, Seq<u8>), right: (Seq<u8>, Seq<u8>)) -> bool {
    bytes_less(left.0, right.0) || (left.0 == right.0 && bytes_less(left.1, right.1))
}

/// The place from `index` on at which a variable is put in order.
pub open spec fn variable_place(
    variables: Seq<(Seq<u8>, Seq<u8>)>,
    variable: (Seq<u8>, Seq<u8>),
    index: int,
) -> int
    decreases variables.len() - index,
{
    if 0 <= index < variables.len() && !variable_less(variable, variables[index]) {
        variable_place(variables, variable, index + 1)
    } else {
        index
    }
}

/// Whether a variable is part of what an analysis depends on.
pub open spec fn counts(variable: VariableModel) -> bool {
    match variable.name {
        Some(name) => is_build_variable(name),
        None => true,
    }
}

/// The variables among the first `count` that an analysis depends on, in
/// order.
pub open spec fn build_variables(environment: Seq<VariableModel>, count: int) -> Seq<
    (Seq<u8>, Seq<u8>),
>
    decreases count,
{
    if count <= 0 {
        Seq::empty()
    } else {
        let before = build_variables(environment, count - 1);
        if counts(environment[count - 1]) {
            let pair = variable_pair(environment[count - 1]);
            before.insert(variable_place(before, pair, 0), pair)
        } else {
            before
        }
    }
}

fn find_variable_place(variables: &Vec<&EnvironmentVariable>, variable: &EnvironmentVariable) -> (result:
    usize)
    ensures
        result <= variables@.len(),
        result == variable_place(
            pairs_of(variables@),
            variable_pair(variable@),
            0,
        ),
{
    let ghost model = pairs_of(variables@);
    let mut index: usize = 0;
    while index < variables.len()
        invariant
            index <= variables@.len(),
            model == pairs_of(variables@),
            variable_place(model, variable_pair(variable@), index as int) == variable_place(
                model,
                variable_pair(variable@),
                0,
            ),
        decreases variables@.len() - index,
    {
        let other: &EnvironmentVariable = variables[index];
        proof {
            assert(model[index as int] == variable_pair(other@));
        }
        if bytes_before(&variable.key, &other.key) || (bytes_same(&variable.key, &other.key)
            && bytes_before(&variable.value, &other.value)) {
            return index;
        }
        index += 1;
    }
    index
}

/// The first `count` variables as bytes.
pub open spec fn variable_bytes(variables: Seq<(Seq<u8>, Seq<u8>)>, count: int) -> Seq<u8>
    decreases count,
{
    if count <= 0 {
        Seq::empty()
    } else {
        variable_bytes(variables, count - 1) + framed(variables[count - 1].0) + framed(
            variables[count - 1].1,
        )
    }
}

/// The environment as bytes.
pub open spec fn environment_bytes(environment: Seq<VariableModel>) -> Seq<u8> {
    let variables = build_variables(environment, environment.len() as int);
    variable_bytes(variables, variables.len() as int)
}

fn hash_environment(target: &mut Vec<u8>, environment: &Vec<EnvironmentVariable>)
    ensures
        final(target)@ == old(target)@ + environment_bytes(views(environment@)),
{
    let ghost start = target@;
    proof {
        assert(views(environment@).len() == environment@.len());
    }
    let mut variables: Vec<&EnvironmentVariable> = Vec::new();
    let mut index: usize = 0;
    proof {
        assert(pairs_of(variables@) =~= Seq::empty());
    }
    while index < environment.len()
        invariant
            index <= environment@.len(),
            pairs_of(variables@) == build_variables(views(environment@), index as int),
        decreases environment@.len() - index,
    {
        let variable = &environment[index];
        proof {
            assert(views(environment@)[index as int] == variable@);
        }
        let name = match &variable.name {
            Some(name) => Some(name.as_str()),
            None => None,
        };
        if rust_build_environment_key(name) {
            let ghost before = pairs_of(variables@);
            let place: usize = find_variable_place(&variables, variable);
            variables.insert(place, variable);
            proof {
                assert(pairs_of(variables@) =~= before.insert(
                    place as int,
                    variable_pair(variable@),
                ));
            }
        }
        index += 1;
    }
    let ghost model = pairs_of(variables@);
    let mut next: usize = 0;
    proof {
        assert(start + variable_bytes(model, 0) =~= start);
    }
    while next < variables.len()
        invariant
            next <= variables@.len(),
            model == pairs_of(variables@),
            target@ == start + variable_bytes(model, next as int),
        decreases variables@.len() - next,
    {
        let variable: &EnvironmentVariable = variables[next];
        proof {
            assert(model[next as int] == variable_pair(variable@));
        }
        hash_cache_bytes(target, variable.key.as_slice());
        hash_cache_bytes(target, variable.value.as_slice());
        proof {
            assert(target@ =~= start + variable_bytes(model, next + 1));
        }
        next += 1;
    }
}

/// A file of a project, by its path below the project.
#[derive(Debug)]
pub enum ProjectInput {
    File { relative: Vec<u8>, contents: Vec<u8> },
    /// A link, with what it leads to where that is a file.
    Link { relative: Vec<u8>, target: Vec<u8>, resolved: Option<Vec<u8>> },
}

/// A file of a project as bytes.
pub open spec fn input_bytes(input: ProjectInput) -> Seq<u8> {
    match input {
        ProjectInput::File { relative, contents } => framed(encode_utf8("file"@)) + framed(
            relative@,
        ) + framed(contents@),
        ProjectInput::Link { relative, target, resolved } => {
            let head = framed(encode_utf8("symlink"@)) + framed(relative@) + framed(target@);
            match resolved {
                Some(contents) => head + framed(contents@),
                None => head,
            }
        },
    }
}

/// The first `count` files of a project as bytes.
pub open spec fn inputs_bytes(inputs: Seq<ProjectInput>, count: int) -> Seq<u8>
    decreases count,
{
    if count <= 0 {
        Seq::empty()
    } else {
        inputs_bytes(inputs, count - 1) + input_bytes(inputs[count - 1])
    }
}

fn hash_project_input(target: &mut Vec<u8>, input: &ProjectInput)
    ensures
        final(target)@ == old(target)@ + input_bytes(*input),
{
    let ghost start = target@;
    match input {
        ProjectInput::File { relative, contents } => {
            hash_cache_bytes(target, "file".as_bytes());
            hash_cache_bytes(target, relative.as_slice());
            hash_cache_bytes(target, contents.as_slice());
        },
        ProjectInput::Link { relative, target: link, resolved } => {
            hash_cache_bytes(target, "symlink".as_bytes());
            hash_cache_bytes(target, relative.as_slice());
            hash_cache_bytes(target, link.as_slice());
            if let Some(contents) = resolved {
                hash_cache_bytes(target, contents.as_slice());
            }
        },
    }
    proof {
        assert(target@ =~= start + input_bytes(*input));
    }
}

/// What a project consists of: the key of a snapshot, or its files.
#[derive(Debug)]
pub enum ProjectInputs {
    Snapshot(Vec<u8>),
    Files(Vec<ProjectInput>),
}

/// What a project consists of, as bytes.
pub open spec fn project_bytes(inputs: ProjectInputs) -> Seq<u8> {
    match inputs {
        ProjectInputs::Snapshot(key) => framed(encode_utf8("git-snapshot"@)) + framed(key@),
        ProjectInputs::Files(files) => inputs_bytes(files@, files@.len() as int),
    }
}

fn hash_project_inputs(target: &mut Vec<u8>, inputs: &ProjectInputs)
    ensures
        final(target)@ == old(target)@ + project_bytes(*inputs),
{
    let ghost start = target@;
    match inputs {
        ProjectInputs::Snapshot(key) => {
            hash_cache_bytes(target, "git-snapshot".as_bytes());
            hash_cache_bytes(target, key.as_slice());
            proof {
                assert(target@ =~= start + project_bytes(*inputs));
            }
        },
        ProjectInputs::Files(files) => {
            let mut index: usize = 0;
            proof {
                assert(start + inputs_bytes(files@, 0) =~= start);
            }
            while index < files.len()
                invariant
                    index <= files@.len(),
                    target@ == start + inputs_bytes(files@, index as int),
                decreases files@.len() - index,
            {
                hash_project_input(target, &files[index]);
                proof {
                    assert(target@ =~= start + inputs_bytes(files@, index + 1));
                }
                index += 1;
            }
        },
    }
}

/// What analyzes: its version and the form of what it keeps.
pub open spec fn analyzer_text(version: Seq<char>) -> Seq<char> {
    version + ":semantic-schema-"@ + decimal(RUST_SEMANTIC_CACHE_SCHEMA as nat)
}

/// What analyzes: its version and the form of what it keeps.
pub fn analyzer_identity(version: &str) -> (result: String)
    ensures
        result@ == analyzer_text(version@),
{
    let mut result = concat_texts(version, ":semantic-schema-");
    result.append(decimal_text(RUST_SEMANTIC_CACHE_SCHEMA as usize).as_str());
    result
}

/// All that the analysis of a project depends on, as bytes.
pub open spec fn fingerprint_bytes(
    version: Seq<char>,
    rustc: CommandIdentity,
    cargo: CommandIdentity,
    environment: Seq<VariableModel>,
    inputs: ProjectInputs,
) -> Seq<u8> {
    framed(low_bytes(RUST_SEMANTIC_CACHE_SCHEMA as nat, 4)) + framed(
        encode_utf8(analyzer_text(version)),
    ) + identity_bytes(rustc) + identity_bytes(cargo) + environment_bytes(environment)
        + project_bytes(inputs)
}

/// The digest of all that the analysis of a project depends on.
pub fn semantic_cache_fingerprint(
    version: &str,
    rustc: &CommandIdentity,
    cargo: &CommandIdentity,
    environment: &Vec<EnvironmentVariable>,
    inputs: &ProjectInputs,
) -> (result: String)
    ensures
        result@ == sha256_hex(
            fingerprint_bytes(version@, *rustc, *cargo, views(environment@), *inputs),
        ),
{
    let mut bytes: Vec<u8> = Vec::new();
    let mut schema: Vec<u8> = Vec::new();
    push_low_bytes(&mut schema, RUST_SEMANTIC_CACHE_SCHEMA as u64, 4);
    proof {
        assert(schema@ =~= low_bytes(RUST_SEMANTIC_CACHE_SCHEMA as nat, 4));
    }
    hash_cache_bytes(&mut bytes, schema.as_slice());
    hash_cache_bytes(&mut bytes, analyzer_identity(version).as_str().as_bytes());
    proof {
        assert(bytes@ =~= framed(schema@) + framed(encode_utf8(analyzer_text(version@))));
    }
    hash_command_identity(&mut bytes, rustc);
    hash_command_identity(&mut bytes, cargo);
    hash_environment(&mut bytes, environment);
    hash_project_inputs(&mut bytes, inputs);
    sha256_text(bytes.as_slice())
}

/// Whether what a tool says is short enough to be counted in a machine word.
pub open spec fn is_countable(identity: CommandIdentity) -> bool {
    encode_utf8(identity.program@).len() <= u64::MAX && identity.stdout@.len() <= u64::MAX
        && identity.stderr@.len() <= u64::MAX
}

proof fn five_in_a_row(
    first: Seq<u8>,
    second: Seq<u8>,
    third: Seq<u8>,
    fourth: Seq<u8>,
    fifth: Seq<u8>,
)
    ensures
        first + second + third + fourth + fifth == first + (second + (third + (fourth + fifth))),
{
    assert(first + second + third + fourth + fifth =~= first + (second + (third + (fourth
        + fifth))));
}

#[verifier::rlimit(30)]
proof fn tools_are_told_apart(
    left: CommandIdentity,
    left_rest: Seq<u8>,
    right: CommandIdentity,
    right_rest: Seq<u8>,
)
    requires
        identity_bytes(left) + left_rest == identity_bytes(right) + right_rest,
        is_countable(left),
        is_countable(right),
    ensures
        encode_utf8(left.program@) == encode_utf8(right.program@),
        left.stdout@ == right.stdout@,
        left.stderr@ == right.stderr@,
        left_rest == right_rest,
{
    let left_code = match left.code {
        Some(code) => code,
        None => -1i32,
    };
    let right_code = match right.code {
        Some(code) => code,
        None => -1i32,
    };
    let left_end = low_bytes((left_code as u32) as nat, 4);
    let right_end = low_bytes((right_code as u32) as nat, 4);
    let left_fourth = framed(left_end) + left_rest;
    let right_fourth = framed(right_end) + right_rest;
    let left_third = framed(left.stderr@) + left_fourth;
    let right_third = framed(right.stderr@) + right_fourth;
    let left_second = framed(left.stdout@) + left_third;
    let right_second = framed(right.stdout@) + right_third;
    let left_name = encode_utf8(left.program@);
    let right_name = encode_utf8(right.program@);
    five_in_a_row(
        framed(left_name),
        framed(left.stdout@),
        framed(left.stderr@),
        framed(left_end),
        left_rest,
    );
    five_in_a_row(
        framed(right_name),
        framed(right.stdout@),
        framed(right.stderr@),
        framed(right_end),
        right_rest,
    );
    frames_are_told_apart(left_name, left_second, right_name, right_second);
    frames_are_told_apart(left.stdout@, left_third, right.stdout@, right_third);
    frames_are_told_apart(left.stderr@, left_fourth, right.stderr@, right_fourth);
    low_bytes_length((left_code as u32) as nat, 4);
    low_bytes_length((right_code as u32) as nat, 4);
    frames_are_told_apart(left_end, left_rest, right_end, right_rest);
}

proof fn six_in_a_row(
    first: Seq<u8>,
    second: Seq<u8>,
    third: Seq<u8>,
    fourth: Seq<u8>,
    fifth: Seq<u8>,
    sixth: Seq<u8>,
)
    ensures
        first + second + third + fourth + fifth + sixth == first + (second + (third + (fourth + (
        fifth + sixth)))),
{
    assert(first + second + third + fourth + fifth + sixth =~= first + (second + (third + (fourth
        + (fifth + sixth)))));
}

/// What an analysis depends on is not the same for two versions of the
/// analyzer, for two compilers or for two versions of Cargo, nor for two
/// environments and projects that differ as bytes.
#[verifier::rlimit(30)]
pub proof fn fingerprints_tell_tools_apart(
    left_version: Seq<char>,
    left_rustc: CommandIdentity,
    left_cargo: CommandIdentity,
    left_environment: Seq<VariableModel>,
    left_inputs: ProjectInputs,
    right_version: Seq<char>,
    right_rustc: CommandIdentity,
    right_cargo: CommandIdentity,
    right_environment: Seq<VariableModel>,
    right_inputs: ProjectInputs,
)
    requires
        encode_utf8(analyzer_text(left_version)).len() <= u64::MAX,
        encode_utf8(analyzer_text(right_version)).len() <= u64::MAX,
        is_countable(left_rustc),
        is_countable(left_cargo),
        is_countable(right_rustc),
        is_countable(right_cargo),
        fingerprint_bytes(left_version, left_rustc, left_cargo, left_environment, left_inputs)
            == fingerprint_bytes(
            right_version,
            right_rustc,
            right_cargo,
            right_environment,
            right_inputs,
        ),
    ensures
        encode_utf8(analyzer_text(left_version)) == encode_utf8(analyzer_text(right_version)),
        left_rustc.stdout@ == right_rustc.stdout@,
        left_rustc.stderr@ == right_rustc.stderr@,
        left_cargo.stdout@ == right_cargo.stdout@,
        left_cargo.stderr@ == right_cargo.stderr@,
        environment_bytes(left_environment) + project_bytes(left_inputs) == environment_bytes(
            right_environment,
        ) + project_bytes(right_inputs),
{
    let schema = low_bytes(RUST_SEMANTIC_CACHE_SCHEMA as nat, 4);
    low_bytes_length(RUST_SEMANTIC_CACHE_SCHEMA as nat, 4);
    let left_tail = environment_bytes(left_environment) + project_bytes(left_inputs);
    let right_tail = environment_bytes(right_environment) + project_bytes(right_inputs);
    let left_third = identity_bytes(left_cargo) + left_tail;
    let right_third = identity_bytes(right_cargo) + right_tail;
    let left_second = identity_bytes(left_rustc) + left_third;
    let right_second = identity_bytes(right_rustc) + right_third;
    let left_name = encode_utf8(analyzer_text(left_version));
    let right_name = encode_utf8(analyzer_text(right_version));
    let left_first = framed(left_name) + left_second;
    let right_first = framed(right_name) + right_second;
    six_in_a_row(
        framed(schema),
        framed(left_name),
        identity_bytes(left_rustc),
        identity_bytes(left_cargo),
        environment_bytes(left_environment),
        project_bytes(left_inputs),
    );
    six_in_a_row(
        framed(schema),
        framed(right_name),
        identity_bytes(right_rustc),
        identity_bytes(right_cargo),
        environment_bytes(right_environment),
        project_bytes(right_inputs),
    );
    frames_are_told_apart(schema, left_first, schema, right_first);
    frames_are_told_apart(left_name, left_second, right_name, right_second);
    tools_are_told_apart(left_rustc, left_third, right_rustc, right_third);
    tools_are_told_apart(left_cargo, left_tail, right_cargo, right_tail);
}

} // verus!
