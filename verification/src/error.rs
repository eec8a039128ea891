use vstd::prelude::*;

verus! {

/// The error taxonomy of the library: configuration, load, template,
/// type-conversion and execution failures each have a variant, carrying
/// a human-readable message.
#[derive(Debug, Clone)]
pub enum DbError {
    DbError(String),
    DbUrlError(String),
    SerializationError(String),
    QueryBuildError(String),
    DataConversionError(String),
    MapperLoadError(String),
    DriverError(String),
    TemplateEngineError(String),
    SqlExecutionError(String),
    TypeMismatch(String),
    MissingField(String),
    Custom(String),
}

impl DbError {
    /// The message carried by the error, whatever its variant.
    pub fn message(&self) -> (r: &str)
        ensures
            r@ == self.message_spec(),
    {
        match self {
            DbError::DbError(m) => m.as_str(),
            DbError::DbUrlError(m) => m.as_str(),
            DbError::SerializationError(m) => m.as_str(),
            DbError::QueryBuildError(m) => m.as_str(),
            DbError::DataConversionError(m) => m.as_str(),
            DbError::MapperLoadError(m) => m.as_str(),
            DbError::DriverError(m) => m.as_str(),
            DbError::TemplateEngineError(m) => m.as_str(),
            DbError::SqlExecutionError(m) => m.as_str(),
            DbError::TypeMismatch(m) => m.as_str(),
            DbError::MissingField(m) => m.as_str(),
            DbError::Custom(m) => m.as_str(),
        }
    }

    pub open spec fn message_spec(&self) -> Seq<char> {
        match self {
            DbError::DbError(m) => m@,
            DbError::DbUrlError(m) => m@,
            DbError::SerializationError(m) => m@,
            DbError::QueryBuildError(m) => m@,
            DbError::DataConversionError(m) => m@,
            DbError::MapperLoadError(m) => m@,
            DbError::DriverError(m) => m@,
            DbError::TemplateEngineError(m) => m@,
            DbError::SqlExecutionError(m) => m@,
            DbError::TypeMismatch(m) => m@,
            DbError::MissingField(m) => m@,
            DbError::Custom(m) => m@,
        }
    }

    pub fn custom(msg: &str) -> (r: DbError)
        ensures
            r is Custom,
            r.message_spec() == msg@,
    {
        DbError::Custom(msg.to_owned())
    }
}

} // verus!
