pub mod alarm;
pub mod cpu0;
pub mod executor_list;
