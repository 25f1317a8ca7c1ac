// Directory bookmarks: a store of unique names mapped to paths, kept in the
// order they were saved, and the decisions the command line makes around it.

pub mod cli;
pub mod laws;
pub mod store;
