//! The error taxonomy of one compiler run. Every error is fatal to
//! the run and carries the context a schema author needs: the
//! offending file, and where applicable the property name and the
//! unsupported tag or format.

use vstd::prelude::*;
use crate::schema::SchemaTypeTag;

verus! {

/// Why a compiler run aborted.
#[derive(Debug, PartialEq, Eq)]
pub enum CompileError {
    /// The schema directory for the requested version could not be
    /// listed. Raised by the caller that performs discovery.
    SchemasNotFound,
    /// One schema file could not be read. Raised by the caller that
    /// performs file reading.
    SchemaNotFound { path: Vec<u8> },
    /// The file is not one well-formed JSON document of the expected
    /// shape.
    InvalidSchema { path: Vec<u8> },
    /// The schema's root `type` is not `object`.
    SchemaTypeNotSupported { path: Vec<u8>, ty: SchemaTypeTag },
    /// A property's type has no code-generation mapping.
    SchemaPropertyTypeNotSupported { path: Vec<u8>, property: Vec<u8> },
    /// A string property declares a `format` with no known mapping.
    SchemaPropertyFormatNotSupported { path: Vec<u8>, property: Vec<u8>, format: Vec<u8> },
    /// Two distinct raw names sanitize to the same identifier, or two
    /// distinct definitions claim the same name.
    NamingCollision { path: Vec<u8>, name: Vec<u8> },
    /// The generated output could not be written. Raised by the caller
    /// that performs the write.
    CompiledSchemaCannotBeSaved { path: Vec<u8> },
}

/// The mathematical model of a [`CompileError`].
pub enum ErrV {
    SchemasNotFound,
    SchemaNotFound { path: Seq<u8> },
    InvalidSchema { path: Seq<u8> },
    SchemaTypeNotSupported { path: Seq<u8>, ty: SchemaTypeTag },
    SchemaPropertyTypeNotSupported { path: Seq<u8>, property: Seq<u8> },
    SchemaPropertyFormatNotSupported { path: Seq<u8>, property: Seq<u8>, format: Seq<u8> },
    NamingCollision { path: Seq<u8>, name: Seq<u8> },
    CompiledSchemaCannotBeSaved { path: Seq<u8> },
}

impl DeepView for CompileError {
    type V = ErrV;

    open spec fn deep_view(&self) -> ErrV {
        match self {
            CompileError::SchemasNotFound => ErrV::SchemasNotFound,
            CompileError::SchemaNotFound { path } => ErrV::SchemaNotFound { path: path@ },
            CompileError::InvalidSchema { path } => ErrV::InvalidSchema { path: path@ },
            CompileError::SchemaTypeNotSupported { path, ty } => ErrV::SchemaTypeNotSupported {
                path: path@,
                ty: *ty,
            },
            CompileError::SchemaPropertyTypeNotSupported {
                path,
                property,
            } => ErrV::SchemaPropertyTypeNotSupported { path: path@, property: property@ },
            CompileError::SchemaPropertyFormatNotSupported {
                path,
                property,
                format,
            } => ErrV::SchemaPropertyFormatNotSupported {
                path: path@,
                property: property@,
                format: format@,
            },
            CompileError::NamingCollision { path, name } => ErrV::NamingCollision {
                path: path@,
                name: name@,
            },
            CompileError::CompiledSchemaCannotBeSaved {
                path,
            } => ErrV::CompiledSchemaCannotBeSaved { path: path@ },
        }
    }
}

} // verus!
