//! What semantic analysis knows of the program being compiled.

use vstd::prelude::*;
use indexmap::IndexMap;
use crate::diagnostics::{Diagnostics, Loc};
use crate::pt::{ContractTy, FunctionTy, Visibility};
use crate::types::{Mutability, StructType, Type};
use crate::file::{File, PathDisplay, line_column, path_file_name, path_prefix, range_text, starts_wf};

verus! {

/// The blockchain the program is compiled for.
#[derive(Clone, Copy, Debug, PartialEq, Eq, Structural)]
pub enum Target {
    /// Solana, see <https://solana.com/>
    Solana,
    /// Parachains of the Substrate framework
    Substrate { address_length: usize, value_length: usize },
    /// Ethereum Virtual Machine
    EVM,
}

impl Target {
    /// Whether this is a Substrate target.
    pub fn is_substrate(&self) -> (res: bool)
        ensures
            res == (*self is Substrate),
    {
        match self {
            Target::Substrate { .. } => true,
            _ => false,
        }
    }

    /// The length of a function selector in bytes.
    pub open spec fn spec_selector_length(self) -> u8 {
        match self {
            Target::Solana => 8,
            _ => 4,
        }
    }

    /// The length of a function selector in bytes.
    pub fn selector_length(&self) -> (res: u8)
        ensures
            res == self.spec_selector_length(),
    {
        match self {
            Target::Solana => 8,
            _ => 4,
        }
    }

    /// The name of the target.
    pub open spec fn spec_name(self) -> Seq<char> {
        match self {
            Target::Solana => "Solana"@,
            Target::Substrate { .. } => "Substrate"@,
            Target::EVM => "EVM"@,
        }
    }

    /// The name of the target.
    pub fn name(&self) -> (res: &'static str)
        ensures
            res@ == self.spec_name(),
    {
        match self {
            Target::Solana => "Solana",
            Target::Substrate { .. } => "Substrate",
            Target::EVM => "EVM",
        }
    }
}

/// A user defined value type: its name and the elementary type it wraps.
pub struct UserTypeDecl {
    pub name: String,
    pub ty: Type,
}

/// A declared function: where, its kind and name, the contract it belongs
/// to if any, its visibility, whether it has a body, the types of its
/// parameters and of its return values, its mutability, whether it is
/// virtual or overrides others (and which), its signature, and the
/// contracts that it creates, each with where.
pub struct Function {
    pub loc: Loc,
    pub ty: FunctionTy,
    pub name: String,
    pub contract_no: Option<usize>,
    pub visibility: Visibility,
    pub has_body: bool,
    pub params: Vec<Type>,
    pub returns: Vec<Type>,
    pub mutability: Mutability,
    pub is_virtual: bool,
    pub is_override: Option<(Loc, Vec<usize>)>,
    pub signature: String,
    pub creates: Vec<(Loc, usize)>,
}

impl Function {
    /// Whether the function is private.
    pub fn is_private(&self) -> (res: bool)
        ensures
            res == (self.visibility is Private),
    {
        match self.visibility {
            Visibility::Private(_) => true,
            _ => false,
        }
    }

    /// Whether the function is a constructor.
    pub fn is_constructor(&self) -> (res: bool)
        ensures
            res == (self.ty == FunctionTy::Constructor),
    {
        match self.ty {
            FunctionTy::Constructor => true,
            _ => false,
        }
    }
}

/// The map of `indexmap`, which keeps its entries in the order they were
/// inserted.
#[verifier::external_type_specification]
#[verifier::external_body]
#[verifier::reject_recursive_types(K)]
#[verifier::reject_recursive_types(V)]
#[verifier::reject_recursive_types(S)]
pub struct ExIndexMap<K, V, S>(indexmap::IndexMap<K, V, S>);

/// The keys of an `IndexMap`, in the map's order.
pub uninterp spec fn index_map_keys(m: IndexMap<usize, usize>) -> Seq<usize>;

/// `IndexMap::keys` of `indexmap`: the keys of the map, in their order.
#[verifier::external_body]
pub(crate) fn keys_of(m: &IndexMap<usize, usize>) -> (res: Vec<usize>)
    ensures
        res@ == index_map_keys(*m),
{
    m.keys().copied().collect()
}

/// A contract: its kind and name, whether it can be constructed, all its
/// functions (its own and inherited) as the keys of a map, its base
/// contracts in order of inheritance, itself included, and the contracts
/// that it creates.
pub struct Contract {
    pub ty: ContractTy,
    pub name: String,
    pub instantiable: bool,
    pub all_functions: IndexMap<usize, usize>,
    pub bases: Vec<usize>,
    pub creates: Vec<usize>,
}

/// What a name stands for.
pub enum Symbol {
    Enum(Loc, usize),
    /// The overloads of a function: where each is declared, and its number.
    Function(Vec<(Loc, usize)>),
    Variable(Loc, Option<usize>, usize),
    Struct(Loc, StructType),
    Event(Vec<(Loc, usize)>),
    Error(Loc, usize),
    Contract(Loc, usize),
    Import(Loc, usize),
    UserType(Loc, usize),
}

/// A name declared in file `file_no`, in contract `contract_no` if any.
pub struct SymbolEntry {
    pub file_no: usize,
    pub contract_no: Option<usize>,
    pub name: String,
    pub symbol: Symbol,
}

/// The parts of the namespace that the checks here read: the source files,
/// the target, the length of an address and of a value in bytes, the names
/// of the enums, structs and user types, the functions and contracts, the
/// function symbols, and the diagnostics found so far.
pub struct Namespace {
    pub files: Vec<File>,
    pub target: Target,
    pub address_length: usize,
    pub value_length: usize,
    pub enums: Vec<String>,
    pub structs: Vec<String>,
    pub user_types: Vec<UserTypeDecl>,
    pub functions: Vec<Function>,
    pub contracts: Vec<Contract>,
    pub function_symbols: Vec<SymbolEntry>,
    pub diagnostics: Diagnostics,
}

/// The text for a location.
pub open spec fn loc_text(files: Seq<File>, display: PathDisplay, loc: Loc) -> Seq<char> {
    match loc {
        Loc::File(file_no, start, end) => range_text(
            path_prefix(files[file_no as int].path@, display),
            line_column(files[file_no as int].line_starts@, start),
            line_column(files[file_no as int].line_starts@, end),
        ),
        Loc::Builtin => "builtin"@,
        Loc::Codegen => "codegen"@,
        Loc::Implicit => "implicit"@,
        Loc::CommandLine => "commandline"@,
    }
}

impl Namespace {
    /// Give a position as a human readable position.
    pub fn loc_to_string(&self, display: PathDisplay, loc: &Loc) -> (res: String)
        requires
            loc is File ==> {
                &&& loc->File_0 < self.files@.len()
                &&& starts_wf(self.files@[loc->File_0 as int].line_starts@)
                &&& loc->File_1 < usize::MAX
                &&& loc->File_2 < usize::MAX
                &&& display == PathDisplay::Filename
                    ==> path_file_name(self.files@[loc->File_0 as int].path@) is Some
            },
        ensures
            res@ == loc_text(self.files@, display, *loc),
    {
        match loc {
            Loc::File(file_no, start, end) => self.files[*file_no].loc_to_string(display, *start, *end),
            Loc::Builtin => String::from_str("builtin"),
            Loc::Codegen => String::from_str("codegen"),
            Loc::Implicit => String::from_str("implicit"),
            Loc::CommandLine => String::from_str("commandline"),
        }
    }

    /// File number of the top level source unit which was compiled: the
    /// first file that is in the cache.
    pub fn top_file_no(&self) -> (res: usize)
        requires
            exists|i: int| 0 <= i < self.files@.len() && #[trigger] self.files@[i].cache_no is Some,
        ensures
            res < self.files@.len(),
            self.files@[res as int].cache_no is Some,
            forall|i: int| 0 <= i < res ==> #[trigger] self.files@[i].cache_no is None,
    {
        let mut i: usize = 0;
        while i < self.files.len()
            invariant
                i <= self.files@.len(),
                exists|j: int| 0 <= j < self.files@.len() && #[trigger] self.files@[j].cache_no is Some,
                forall|j: int| 0 <= j < i ==> #[trigger] self.files@[j].cache_no is None,
            decreases self.files@.len() - i,
        {
            if self.files[i].cache_no.is_some() {
                return i;
            }
            i = i + 1;
        }
        i
    }
}

} // verus!
