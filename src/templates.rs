use vstd::prelude::*;

verus! {

// Generated code names its input `{from_var}` and its output `{to_var}`; the
// downstream generators substitute the real variable names. On the foreign
// side the handle lives in the wrapper's field `mNativeObj`, and the marker
// `InternalPointerMarker.RAW_PTR` selects the constructor that takes a handle.
/// How a handle is consumed on the native side.
#[derive(PartialEq, Eq, Structural, Clone, Copy, Debug)]
pub enum OwnershipPolicy {
    /// The value moves out of its box; the handle is spent.
    Unique,
    /// The boxed value is cloned; the handle stays valid.
    CopyValue,
    /// The boxed value is a shared pointer whose clone adds one owner; the
    /// handle stays valid.
    SharedCount,
}

pub open spec fn ref_expr(t: Seq<char>) -> Seq<char> {
    "& "@ + t
}

pub open spec fn mut_ref_expr(t: Seq<char>) -> Seq<char> {
    "&mut "@ + t
}

/// Reads the handle as the address of a boxed `t` and borrows it as `kind t`.
pub open spec fn deref_code(kind: Seq<char>, t: Seq<char>) -> Seq<char> {
    "\n    let {to_var}: "@ + kind + t + " = unsafe {\n        jlong_to_pointer::<"@ + t
        + ">({from_var}).as_mut().unwrap()\n    };\n"@
}

/// Boxes a native value and hands out its address as the handle.
pub open spec fn box_code(t: Seq<char>) -> Seq<char> {
    "\n    let {to_var}: jlong = <"@ + t + ">::box_object({from_var});\n"@
}

/// Turns a handle back into a native value, as the policy prescribes.
pub open spec fn in_code(policy: OwnershipPolicy, t: Seq<char>) -> Seq<char> {
    match policy {
        OwnershipPolicy::Unique => deref_code("*mut "@, t) + "    let {to_var}: Box<"@ + t
            + "> = unsafe { Box::from_raw({to_var}) };\n    let {to_var}: "@ + t + " = *{to_var};\n"@,
        OwnershipPolicy::CopyValue => deref_code("&"@, t) + "    let {to_var}: "@ + t
            + " = {to_var}.clone();\n"@,
        OwnershipPolicy::SharedCount => deref_code("*mut "@, t)
            + "    let tmp = ::std::mem::ManuallyDrop::new(unsafe { Box::from_raw({to_var}) });\n    let {to_var}: "@
            + t + " = (**tmp).clone();\n"@,
    }
}

/// Foreign code that wraps a handle into a new object of the class.
pub open spec fn wrap_code(class: Seq<char>) -> Seq<char> {
    "        "@ + class + " {to_var} = new "@ + class
        + "(InternalPointerMarker.RAW_PTR, {from_var});"@
}

/// Foreign code that reads the handle out of a wrapper object.
pub open spec fn read_field_code() -> Seq<char> {
    "        long {to_var} = {from_var}.mNativeObj;"@
}

/// Foreign code that takes a value out of a wrapper object; under `Unique`
/// it also zeroes the stored handle so that it cannot be used again.
pub open spec fn take_field_code(policy: OwnershipPolicy) -> Seq<char> {
    if policy == OwnershipPolicy::Unique {
        "\n        long {to_var} = {from_var}.mNativeObj;\n        {from_var}.mNativeObj = 0;\n"@
    } else {
        "\n        long {to_var} = {from_var}.mNativeObj;\n"@
    }
}

pub fn make_ref_expr(t: &String) -> (r: String)
    ensures
        r@ == ref_expr(t@),
{
    let mut r = String::from_str("& ");
    r.append(t.as_str());
    r
}

pub fn make_mut_ref_expr(t: &String) -> (r: String)
    ensures
        r@ == mut_ref_expr(t@),
{
    let mut r = String::from_str("&mut ");
    r.append(t.as_str());
    r
}

pub fn make_deref_code(kind: &str, t: &String) -> (r: String)
    ensures
        r@ == deref_code(kind@, t@),
{
    let mut r = String::from_str("\n    let {to_var}: ");
    r.append(kind);
    r.append(t.as_str());
    r.append(" = unsafe {\n        jlong_to_pointer::<");
    r.append(t.as_str());
    r.append(">({from_var}).as_mut().unwrap()\n    };\n");
    r
}

pub fn make_box_code(t: &String) -> (r: String)
    ensures
        r@ == box_code(t@),
{
    let mut r = String::from_str("\n    let {to_var}: jlong = <");
    r.append(t.as_str());
    r.append(">::box_object({from_var});\n");
    r
}

pub fn make_in_code(policy: OwnershipPolicy, t: &String) -> (r: String)
    ensures
        r@ == in_code(policy, t@),
{
    match policy {
        OwnershipPolicy::Unique => {
            let mut r = make_deref_code("*mut ", t);
            r.append("    let {to_var}: Box<");
            r.append(t.as_str());
            r.append("> = unsafe { Box::from_raw({to_var}) };\n    let {to_var}: ");
            r.append(t.as_str());
            r.append(" = *{to_var};\n");
            r
        },
        OwnershipPolicy::CopyValue => {
            let mut r = make_deref_code("&", t);
            r.append("    let {to_var}: ");
            r.append(t.as_str());
            r.append(" = {to_var}.clone();\n");
            r
        },
        OwnershipPolicy::SharedCount => {
            let mut r = make_deref_code("*mut ", t);
            r.append(
                "    let tmp = ::std::mem::ManuallyDrop::new(unsafe { Box::from_raw({to_var}) });\n    let {to_var}: ",
            );
            r.append(t.as_str());
            r.append(" = (**tmp).clone();\n");
            r
        },
    }
}

pub fn make_wrap_code(class: &String) -> (r: String)
    ensures
        r@ == wrap_code(class@),
{
    let mut r = String::from_str("        ");
    r.append(class.as_str());
    r.append(" {to_var} = new ");
    r.append(class.as_str());
    r.append("(InternalPointerMarker.RAW_PTR, {from_var});");
    r
}

pub fn make_read_field_code() -> (r: String)
    ensures
        r@ == read_field_code(),
{
    String::from_str("        long {to_var} = {from_var}.mNativeObj;")
}

pub fn make_take_field_code(policy: OwnershipPolicy) -> (r: String)
    ensures
        r@ == take_field_code(policy),
{
    if policy == OwnershipPolicy::Unique {
        String::from_str("\n        long {to_var} = {from_var}.mNativeObj;\n        {from_var}.mNativeObj = 0;\n")
    } else {
        String::from_str("\n        long {to_var} = {from_var}.mNativeObj;\n")
    }
}

} // verus!
