pub mod any_array;
pub mod data_sources;
pub mod dispatcher;
pub mod errors;
pub mod float_bits;
pub mod pandas;
pub mod types;
pub mod writers;

pub use crate::any_array::AnyArray;
pub use crate::data_sources::csv::{CSVSource, CSVSourceBuilder};
pub use crate::data_sources::{DataSource, SourceBuilder};
pub use crate::dispatcher::Dispatcher;
pub use crate::errors::ConnectorAgentError;
pub use crate::types::{DataOrder, DataType, Value};
pub use crate::writers::mixed::{MemoryPartitionWriter, MemoryWriter};
pub use crate::writers::{Consume, PartitionWriter, Writer};
