pub mod break_statement_check;
pub mod check;
pub mod declaration_check;
pub mod return_statement_check;
pub mod report;
