//! Text helpers: decimal rendering of integers, and characters of strings.

use vstd::prelude::*;
use vstd::string::StringExecFns;
use vstd::string::StrSliceExecFns;

verus! {

broadcast use vstd::string::group_string_axioms;

/// The character of a decimal digit.
pub open spec fn digit_char(d: nat) -> char {
    if d == 0 {
        '0'
    } else if d == 1 {
        '1'
    } else if d == 2 {
        '2'
    } else if d == 3 {
        '3'
    } else if d == 4 {
        '4'
    } else if d == 5 {
        '5'
    } else if d == 6 {
        '6'
    } else if d == 7 {
        '7'
    } else if d == 8 {
        '8'
    } else {
        '9'
    }
}

/// The decimal representation of `x`, most significant digit first.
pub open spec fn decimal(x: nat) -> Seq<char>
    decreases x,
{
    if x < 10 {
        seq![digit_char(x)]
    } else {
        decimal(x / 10).push(digit_char(x % 10))
    }
}

fn digit_str(d: u64) -> (r: &'static str)
    requires
        d < 10,
    ensures
        r@ == seq![digit_char(d as nat)],
{
    if d == 0 {
        proof {
            reveal_strlit("0");
        }
        "0"
    } else if d == 1 {
        proof {
            reveal_strlit("1");
        }
        "1"
    } else if d == 2 {
        proof {
            reveal_strlit("2");
        }
        "2"
    } else if d == 3 {
        proof {
            reveal_strlit("3");
        }
        "3"
    } else if d == 4 {
        proof {
            reveal_strlit("4");
        }
        "4"
    } else if d == 5 {
        proof {
            reveal_strlit("5");
        }
        "5"
    } else if d == 6 {
        proof {
            reveal_strlit("6");
        }
        "6"
    } else if d == 7 {
        proof {
            reveal_strlit("7");
        }
        "7"
    } else if d == 8 {
        proof {
            reveal_strlit("8");
        }
        "8"
    } else {
        proof {
            reveal_strlit("9");
        }
        "9"
    }
}

/// The decimal representation of `x`.
pub fn decimal_string(x: u64) -> (r: String)
    ensures
        r@ == decimal(x as nat),
    decreases x,
{
    if x < 10 {
        String::from_str(digit_str(x))
    } else {
        let mut s = decimal_string(x / 10);
        s.append(digit_str(x % 10));
        s
    }
}

/// The character of a hexadecimal digit, in lower or upper case.
pub open spec fn hex_digit(d: nat, upper: bool) -> char {
    if d < 10 {
        digit_char(d)
    } else if upper {
        if d == 10 {
            'A'
        } else if d == 11 {
            'B'
        } else if d == 12 {
            'C'
        } else if d == 13 {
            'D'
        } else if d == 14 {
            'E'
        } else {
            'F'
        }
    } else {
        if d == 10 {
            'a'
        } else if d == 11 {
            'b'
        } else if d == 12 {
            'c'
        } else if d == 13 {
            'd'
        } else if d == 14 {
            'e'
        } else {
            'f'
        }
    }
}

/// The low `width` hexadecimal digits of `x`, most significant first.
pub open spec fn hex_fixed(x: nat, width: nat, upper: bool) -> Seq<char>
    decreases width,
{
    if width == 0 {
        Seq::empty()
    } else {
        hex_fixed(x / 16, (width - 1) as nat, upper).push(hex_digit(x % 16, upper))
    }
}

fn hex_letter_str(d: u64, upper: bool) -> (r: &'static str)
    requires
        10 <= d < 16,
    ensures
        r@ == seq![hex_digit(d as nat, upper)],
{
    if upper {
        if d == 10 {
            proof {
                reveal_strlit("A");
            }
            "A"
        } else if d == 11 {
            proof {
                reveal_strlit("B");
            }
            "B"
        } else if d == 12 {
            proof {
                reveal_strlit("C");
            }
            "C"
        } else if d == 13 {
            proof {
                reveal_strlit("D");
            }
            "D"
        } else if d == 14 {
            proof {
                reveal_strlit("E");
            }
            "E"
        } else {
            proof {
                reveal_strlit("F");
            }
            "F"
        }
    } else {
        if d == 10 {
            proof {
                reveal_strlit("a");
            }
            "a"
        } else if d == 11 {
            proof {
                reveal_strlit("b");
            }
            "b"
        } else if d == 12 {
            proof {
                reveal_strlit("c");
            }
            "c"
        } else if d == 13 {
            proof {
                reveal_strlit("d");
            }
            "d"
        } else if d == 14 {
            proof {
                reveal_strlit("e");
            }
            "e"
        } else {
            proof {
                reveal_strlit("f");
            }
            "f"
        }
    }
}

/// The low `width` hexadecimal digits of `x`, most significant first.
pub fn hex_string(x: u128, width: usize, upper: bool) -> (r: String)
    ensures
        r@ == hex_fixed(x as nat, width as nat, upper),
    decreases width,
{
    if width == 0 {
        return String::new();
    }
    let mut s = hex_string(x / 16, width - 1, upper);
    let d = (x % 16) as u64;
    if d < 10 {
        s.append(digit_str(d));
    } else {
        s.append(hex_letter_str(d, upper));
    }
    s
}

/// The characters of `s`.
pub fn chars_of(s: &str) -> (r: Vec<char>)
    ensures
        r@ == s@,
{
    let n = s.unicode_len();
    let mut out: Vec<char> = Vec::new();
    let mut i: usize = 0;
    while i < n
        invariant
            i <= n,
            n == s@.len(),
            out@ == s@.subrange(0, i as int),
        decreases n - i,
    {
        out.push(s.get_char(i));
        proof {
            assert(out@ =~= s@.subrange(0, i + 1));
        }
        i = i + 1;
    }
    proof {
        assert(out@ =~= s@);
    }
    out
}

/// Whether two character sequences are equal.
pub fn same_chars(a: &[char], b: &[char]) -> (r: bool)
    ensures
        r == (a@ == b@),
{
    if a.len() != b.len() {
        return false;
    }
    let mut i: usize = 0;
    while i < a.len()
        invariant
            i <= a@.len(),
            a@.len() == b@.len(),
            forall|j: int| 0 <= j < i ==> a@[j] == b@[j],
        decreases a@.len() - i,
    {
        if a[i] != b[i] {
            return false;
        }
        i = i + 1;
    }
    proof {
        assert(a@ =~= b@);
    }
    true
}

} // verus!
