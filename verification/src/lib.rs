pub mod class_file_version;
pub mod class_reader;
pub mod raw_class_file_version;

pub use class_file_version::{ClassFileVersion, VersionError};
pub use class_reader::{ClassReader, ParseError};
pub use raw_class_file_version::RawClassFileVersion;
pub mod constant_pool;

pub use constant_pool::ConstantPool;
pub mod instruction_set;
pub mod instructions;

pub use instruction_set::InstructionSet;
pub use instructions::JvmInstruction;
pub mod class_parser;

pub use class_parser::ClassParser;
