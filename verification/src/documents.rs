pub mod capability_index;
pub mod intake;
pub mod model;
pub mod paths;
pub mod quality;
pub mod review_guide;
pub mod spec_rows;
pub mod validate;
