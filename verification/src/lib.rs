pub mod io;
pub mod advent1;
pub mod advent2;
pub mod advent3;
pub mod riddle;
pub mod riddlecontainer;
