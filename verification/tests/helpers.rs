use spaceship_menu::helpers::{
    gl_err_to_str, INVALID_ENUM, INVALID_FRAMEBUFFER_OPERATION, INVALID_OPERATION, INVALID_VALUE, OUT_OF_MEMORY,
    STACK_OVERFLOW, STACK_UNDERFLOW,
};

#[test]
fn error_codes_match_gl() {
    assert_eq!(INVALID_ENUM, gl::INVALID_ENUM);
    assert_eq!(INVALID_VALUE, gl::INVALID_VALUE);
    assert_eq!(INVALID_OPERATION, gl::INVALID_OPERATION);
    assert_eq!(STACK_OVERFLOW, gl::STACK_OVERFLOW);
    assert_eq!(STACK_UNDERFLOW, gl::STACK_UNDERFLOW);
    assert_eq!(OUT_OF_MEMORY, gl::OUT_OF_MEMORY);
    assert_eq!(INVALID_FRAMEBUFFER_OPERATION, gl::INVALID_FRAMEBUFFER_OPERATION);
}

#[test]
fn error_names() {
    assert_eq!(gl_err_to_str(gl::INVALID_ENUM), "INVALID_ENUM");
    assert_eq!(gl_err_to_str(gl::INVALID_VALUE), "INVALID_VALUE");
    assert_eq!(gl_err_to_str(gl::INVALID_OPERATION), "INVALID_OPERATION");
    assert_eq!(gl_err_to_str(gl::INVALID_FRAMEBUFFER_OPERATION), "INVALID_FRAMEBUFFER_OPERATION");
    assert_eq!(gl_err_to_str(gl::OUT_OF_MEMORY), "OUT_OF_MEMORY");
    assert_eq!(gl_err_to_str(gl::STACK_UNDERFLOW), "STACK_UNDERFLOW");
    assert_eq!(gl_err_to_str(gl::STACK_OVERFLOW), "STACK_OVERFLOW");
    assert_eq!(gl_err_to_str(0), "Unknown error");
    assert_eq!(gl_err_to_str(0x0507), "Unknown error");
}
