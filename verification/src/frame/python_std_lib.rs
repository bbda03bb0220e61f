//! The top-level modules of the Python standard library.

use crate::text::chars_of;
use vstd::prelude::*;

verus! {

fn is_name(name: &Vec<char>, literal: &str) -> (r: bool)
    ensures
        r == (name@ == literal@),
{
    let other = chars_of(literal);
    if name.len() != other.len() {
        return false;
    }
    let mut i: usize = 0;
    while i < name.len()
        invariant
            i <= name.len(),
            name.len() == other.len(),
            other@ == literal@,
            forall|j: int| 0 <= j < i ==> name@[j] == other@[j],
        decreases name.len() - i,
    {
        if name[i] != other[i] {
            return false;
        }
        i += 1;
    }
    assert(name@ =~= other@);
    true
}

pub open spec fn stdlib_part_1(name: Seq<char>) -> bool {
    ||| name == "__future__"@
    ||| name == "_abc"@
    ||| name == "_aix_support"@
    ||| name == "_ast"@
    ||| name == "_asyncio"@
    ||| name == "_bisect"@
    ||| name == "_blake2"@
    ||| name == "_bootsubprocess"@
    ||| name == "_bz2"@
    ||| name == "_codecs"@
    ||| name == "_codecs_cn"@
    ||| name == "_codecs_hk"@
    ||| name == "_codecs_iso2022"@
    ||| name == "_codecs_jp"@
    ||| name == "_codecs_kr"@
    ||| name == "_codecs_tw"@
    ||| name == "_collections"@
    ||| name == "_collections_abc"@
    ||| name == "_compat_pickle"@
    ||| name == "_compression"@
    ||| name == "_contextvars"@
    ||| name == "_crypt"@
    ||| name == "_csv"@
    ||| name == "_ctypes"@
    ||| name == "_curses"@
    ||| name == "_curses_panel"@
    ||| name == "_datetime"@
    ||| name == "_dbm"@
    ||| name == "_decimal"@
    ||| name == "_elementtree"@
    ||| name == "_frozen_importlib"@
    ||| name == "_frozen_importlib_external"@
    ||| name == "_functools"@
    ||| name == "_gdbm"@
    ||| name == "_hashlib"@
    ||| name == "_heapq"@
    ||| name == "_imp"@
    ||| name == "_io"@
    ||| name == "_json"@
    ||| name == "_locale"@
    ||| name == "_lsprof"@
    ||| name == "_lzma"@
    ||| name == "_markupbase"@
    ||| name == "_md5"@
    ||| name == "_msi"@
    ||| name == "_multibytecodec"@
    ||| name == "_multiprocessing"@
    ||| name == "_opcode"@
    ||| name == "_operator"@
    ||| name == "_osx_support"@
    ||| name == "_overlapped"@
    ||| name == "_pickle"@
    ||| name == "_posixshmem"@
    ||| name == "_posixsubprocess"@
    ||| name == "_py_abc"@
    ||| name == "_pydecimal"@
    ||| name == "_pyio"@
    ||| name == "_queue"@
    ||| name == "_random"@
    ||| name == "_scproxy"@
    ||| name == "_sha1"@
    ||| name == "_sha256"@
    ||| name == "_sha3"@
    ||| name == "_sha512"@
    ||| name == "_signal"@
    ||| name == "_sitebuiltins"@
    ||| name == "_socket"@
    ||| name == "_sqlite3"@
    ||| name == "_sre"@
    ||| name == "_ssl"@
    ||| name == "_stat"@
    ||| name == "_statistics"@
    ||| name == "_string"@
    ||| name == "_strptime"@
    ||| name == "_struct"@
    ||| name == "_symtable"@
    ||| name == "_thread"@
    ||| name == "_threading_local"@
    ||| name == "_tkinter"@
    ||| name == "_tokenize"@
    ||| name == "_tracemalloc"@
    ||| name == "_typing"@
    ||| name == "_uuid"@
    ||| name == "_warnings"@
    ||| name == "_weakref"@
    ||| name == "_weakrefset"@
    ||| name == "_winapi"@
    ||| name == "_zoneinfo"@
}

fn in_stdlib_part_1(name: &Vec<char>) -> (r: bool)
    ensures
        r == stdlib_part_1(name@),
{
    is_name(name, "__future__")
        || is_name(name, "_abc")
        || is_name(name, "_aix_support")
        || is_name(name, "_ast")
        || is_name(name, "_asyncio")
        || is_name(name, "_bisect")
        || is_name(name, "_blake2")
        || is_name(name, "_bootsubprocess")
        || is_name(name, "_bz2")
        || is_name(name, "_codecs")
        || is_name(name, "_codecs_cn")
        || is_name(name, "_codecs_hk")
        || is_name(name, "_codecs_iso2022")
        || is_name(name, "_codecs_jp")
        || is_name(name, "_codecs_kr")
        || is_name(name, "_codecs_tw")
        || is_name(name, "_collections")
        || is_name(name, "_collections_abc")
        || is_name(name, "_compat_pickle")
        || is_name(name, "_compression")
        || is_name(name, "_contextvars")
        || is_name(name, "_crypt")
        || is_name(name, "_csv")
        || is_name(name, "_ctypes")
        || is_name(name, "_curses")
        || is_name(name, "_curses_panel")
        || is_name(name, "_datetime")
        || is_name(name, "_dbm")
        || is_name(name, "_decimal")
        || is_name(name, "_elementtree")
        || is_name(name, "_frozen_importlib")
        || is_name(name, "_frozen_importlib_external")
        || is_name(name, "_functools")
        || is_name(name, "_gdbm")
        || is_name(name, "_hashlib")
        || is_name(name, "_heapq")
        || is_name(name, "_imp")
        || is_name(name, "_io")
        || is_name(name, "_json")
        || is_name(name, "_locale")
        || is_name(name, "_lsprof")
        || is_name(name, "_lzma")
        || is_name(name, "_markupbase")
        || is_name(name, "_md5")
        || is_name(name, "_msi")
        || is_name(name, "_multibytecodec")
        || is_name(name, "_multiprocessing")
        || is_name(name, "_opcode")
        || is_name(name, "_operator")
        || is_name(name, "_osx_support")
        || is_name(name, "_overlapped")
        || is_name(name, "_pickle")
        || is_name(name, "_posixshmem")
        || is_name(name, "_posixsubprocess")
        || is_name(name, "_py_abc")
        || is_name(name, "_pydecimal")
        || is_name(name, "_pyio")
        || is_name(name, "_queue")
        || is_name(name, "_random")
        || is_name(name, "_scproxy")
        || is_name(name, "_sha1")
        || is_name(name, "_sha256")
        || is_name(name, "_sha3")
        || is_name(name, "_sha512")
        || is_name(name, "_signal")
        || is_name(name, "_sitebuiltins")
        || is_name(name, "_socket")
        || is_name(name, "_sqlite3")
        || is_name(name, "_sre")
        || is_name(name, "_ssl")
        || is_name(name, "_stat")
        || is_name(name, "_statistics")
        || is_name(name, "_string")
        || is_name(name, "_strptime")
        || is_name(name, "_struct")
        || is_name(name, "_symtable")
        || is_name(name, "_thread")
        || is_name(name, "_threading_local")
        || is_name(name, "_tkinter")
        || is_name(name, "_tokenize")
        || is_name(name, "_tracemalloc")
        || is_name(name, "_typing")
        || is_name(name, "_uuid")
        || is_name(name, "_warnings")
        || is_name(name, "_weakref")
        || is_name(name, "_weakrefset")
        || is_name(name, "_winapi")
        || is_name(name, "_zoneinfo")
}

pub open spec fn stdlib_part_2(name: Seq<char>) -> bool {
    ||| name == "abc"@
    ||| name == "aifc"@
    ||| name == "antigravity"@
    ||| name == "argparse"@
    ||| name == "array"@
    ||| name == "ast"@
    ||| name == "asynchat"@
    ||| name == "asyncio"@
    ||| name == "asyncore"@
    ||| name == "atexit"@
    ||| name == "audioop"@
    ||| name == "base64"@
    ||| name == "bdb"@
    ||| name == "binascii"@
    ||| name == "bisect"@
    ||| name == "builtins"@
    ||| name == "bz2"@
    ||| name == "cProfile"@
    ||| name == "calendar"@
    ||| name == "cgi"@
    ||| name == "cgitb"@
    ||| name == "chunk"@
    ||| name == "cmath"@
    ||| name == "cmd"@
    ||| name == "code"@
    ||| name == "codecs"@
    ||| name == "codeop"@
    ||| name == "collections"@
    ||| name == "colorsys"@
    ||| name == "compileall"@
    ||| name == "concurrent"@
    ||| name == "configparser"@
    ||| name == "contextlib"@
    ||| name == "contextvars"@
    ||| name == "copy"@
    ||| name == "copyreg"@
    ||| name == "crypt"@
    ||| name == "csv"@
    ||| name == "ctypes"@
    ||| name == "curses"@
}

fn in_stdlib_part_2(name: &Vec<char>) -> (r: bool)
    ensures
        r == stdlib_part_2(name@),
{
    is_name(name, "abc")
        || is_name(name, "aifc")
        || is_name(name, "antigravity")
        || is_name(name, "argparse")
        || is_name(name, "array")
        || is_name(name, "ast")
        || is_name(name, "asynchat")
        || is_name(name, "asyncio")
        || is_name(name, "asyncore")
        || is_name(name, "atexit")
        || is_name(name, "audioop")
        || is_name(name, "base64")
        || is_name(name, "bdb")
        || is_name(name, "binascii")
        || is_name(name, "bisect")
        || is_name(name, "builtins")
        || is_name(name, "bz2")
        || is_name(name, "cProfile")
        || is_name(name, "calendar")
        || is_name(name, "cgi")
        || is_name(name, "cgitb")
        || is_name(name, "chunk")
        || is_name(name, "cmath")
        || is_name(name, "cmd")
        || is_name(name, "code")
        || is_name(name, "codecs")
        || is_name(name, "codeop")
        || is_name(name, "collections")
        || is_name(name, "colorsys")
        || is_name(name, "compileall")
        || is_name(name, "concurrent")
        || is_name(name, "configparser")
        || is_name(name, "contextlib")
        || is_name(name, "contextvars")
        || is_name(name, "copy")
        || is_name(name, "copyreg")
        || is_name(name, "crypt")
        || is_name(name, "csv")
        || is_name(name, "ctypes")
        || is_name(name, "curses")
}

pub open spec fn stdlib_part_3(name: Seq<char>) -> bool {
    ||| name == "dataclasses"@
    ||| name == "datetime"@
    ||| name == "dbm"@
    ||| name == "decimal"@
    ||| name == "difflib"@
    ||| name == "dis"@
    ||| name == "distutils"@
    ||| name == "doctest"@
    ||| name == "email"@
    ||| name == "encodings"@
    ||| name == "ensurepip"@
    ||| name == "enum"@
    ||| name == "errno"@
    ||| name == "faulthandler"@
    ||| name == "fcntl"@
    ||| name == "filecmp"@
    ||| name == "fileinput"@
    ||| name == "fnmatch"@
    ||| name == "fractions"@
    ||| name == "ftplib"@
    ||| name == "functools"@
    ||| name == "gc"@
    ||| name == "genericpath"@
    ||| name == "getopt"@
    ||| name == "getpass"@
    ||| name == "gettext"@
    ||| name == "glob"@
    ||| name == "graphlib"@
    ||| name == "grp"@
    ||| name == "gzip"@
    ||| name == "hashlib"@
    ||| name == "heapq"@
    ||| name == "hmac"@
    ||| name == "html"@
    ||| name == "http"@
}

fn in_stdlib_part_3(name: &Vec<char>) -> (r: bool)
    ensures
        r == stdlib_part_3(name@),
{
    is_name(name, "dataclasses")
        || is_name(name, "datetime")
        || is_name(name, "dbm")
        || is_name(name, "decimal")
        || is_name(name, "difflib")
        || is_name(name, "dis")
        || is_name(name, "distutils")
        || is_name(name, "doctest")
        || is_name(name, "email")
        || is_name(name, "encodings")
        || is_name(name, "ensurepip")
        || is_name(name, "enum")
        || is_name(name, "errno")
        || is_name(name, "faulthandler")
        || is_name(name, "fcntl")
        || is_name(name, "filecmp")
        || is_name(name, "fileinput")
        || is_name(name, "fnmatch")
        || is_name(name, "fractions")
        || is_name(name, "ftplib")
        || is_name(name, "functools")
        || is_name(name, "gc")
        || is_name(name, "genericpath")
        || is_name(name, "getopt")
        || is_name(name, "getpass")
        || is_name(name, "gettext")
        || is_name(name, "glob")
        || is_name(name, "graphlib")
        || is_name(name, "grp")
        || is_name(name, "gzip")
        || is_name(name, "hashlib")
        || is_name(name, "heapq")
        || is_name(name, "hmac")
        || is_name(name, "html")
        || is_name(name, "http")
}

pub open spec fn stdlib_part_4(name: Seq<char>) -> bool {
    ||| name == "idlelib"@
    ||| name == "imaplib"@
    ||| name == "imghdr"@
    ||| name == "imp"@
    ||| name == "importlib"@
    ||| name == "inspect"@
    ||| name == "io"@
    ||| name == "ipaddress"@
    ||| name == "itertools"@
    ||| name == "json"@
    ||| name == "keyword"@
    ||| name == "lib2to3"@
    ||| name == "linecache"@
    ||| name == "locale"@
    ||| name == "logging"@
    ||| name == "lzma"@
    ||| name == "mailbox"@
    ||| name == "mailcap"@
    ||| name == "marshal"@
    ||| name == "math"@
    ||| name == "mimetypes"@
    ||| name == "mmap"@
    ||| name == "modulefinder"@
    ||| name == "msilib"@
    ||| name == "msvcrt"@
    ||| name == "multiprocessing"@
    ||| name == "netrc"@
    ||| name == "nis"@
    ||| name == "nntplib"@
    ||| name == "nt"@
    ||| name == "ntpath"@
    ||| name == "nturl2path"@
    ||| name == "numbers"@
    ||| name == "opcode"@
    ||| name == "operator"@
    ||| name == "optparse"@
    ||| name == "os"@
    ||| name == "ossaudiodev"@
}

fn in_stdlib_part_4(name: &Vec<char>) -> (r: bool)
    ensures
        r == stdlib_part_4(name@),
{
    is_name(name, "idlelib")
        || is_name(name, "imaplib")
        || is_name(name, "imghdr")
        || is_name(name, "imp")
        || is_name(name, "importlib")
        || is_name(name, "inspect")
        || is_name(name, "io")
        || is_name(name, "ipaddress")
        || is_name(name, "itertools")
        || is_name(name, "json")
        || is_name(name, "keyword")
        || is_name(name, "lib2to3")
        || is_name(name, "linecache")
        || is_name(name, "locale")
        || is_name(name, "logging")
        || is_name(name, "lzma")
        || is_name(name, "mailbox")
        || is_name(name, "mailcap")
        || is_name(name, "marshal")
        || is_name(name, "math")
        || is_name(name, "mimetypes")
        || is_name(name, "mmap")
        || is_name(name, "modulefinder")
        || is_name(name, "msilib")
        || is_name(name, "msvcrt")
        || is_name(name, "multiprocessing")
        || is_name(name, "netrc")
        || is_name(name, "nis")
        || is_name(name, "nntplib")
        || is_name(name, "nt")
        || is_name(name, "ntpath")
        || is_name(name, "nturl2path")
        || is_name(name, "numbers")
        || is_name(name, "opcode")
        || is_name(name, "operator")
        || is_name(name, "optparse")
        || is_name(name, "os")
        || is_name(name, "ossaudiodev")
}

pub open spec fn stdlib_part_5(name: Seq<char>) -> bool {
    ||| name == "pathlib"@
    ||| name == "pdb"@
    ||| name == "pickle"@
    ||| name == "pickletools"@
    ||| name == "pipes"@
    ||| name == "pkgutil"@
    ||| name == "platform"@
    ||| name == "plistlib"@
    ||| name == "poplib"@
    ||| name == "posix"@
    ||| name == "posixpath"@
    ||| name == "pprint"@
    ||| name == "profile"@
    ||| name == "pstats"@
    ||| name == "pty"@
    ||| name == "pwd"@
    ||| name == "py_compile"@
    ||| name == "pyclbr"@
    ||| name == "pydoc"@
    ||| name == "pydoc_data"@
    ||| name == "pyexpat"@
    ||| name == "queue"@
    ||| name == "quopri"@
    ||| name == "random"@
    ||| name == "re"@
    ||| name == "readline"@
    ||| name == "reprlib"@
    ||| name == "resource"@
    ||| name == "rlcompleter"@
    ||| name == "runpy"@
}

fn in_stdlib_part_5(name: &Vec<char>) -> (r: bool)
    ensures
        r == stdlib_part_5(name@),
{
    is_name(name, "pathlib")
        || is_name(name, "pdb")
        || is_name(name, "pickle")
        || is_name(name, "pickletools")
        || is_name(name, "pipes")
        || is_name(name, "pkgutil")
        || is_name(name, "platform")
        || is_name(name, "plistlib")
        || is_name(name, "poplib")
        || is_name(name, "posix")
        || is_name(name, "posixpath")
        || is_name(name, "pprint")
        || is_name(name, "profile")
        || is_name(name, "pstats")
        || is_name(name, "pty")
        || is_name(name, "pwd")
        || is_name(name, "py_compile")
        || is_name(name, "pyclbr")
        || is_name(name, "pydoc")
        || is_name(name, "pydoc_data")
        || is_name(name, "pyexpat")
        || is_name(name, "queue")
        || is_name(name, "quopri")
        || is_name(name, "random")
        || is_name(name, "re")
        || is_name(name, "readline")
        || is_name(name, "reprlib")
        || is_name(name, "resource")
        || is_name(name, "rlcompleter")
        || is_name(name, "runpy")
}

pub open spec fn stdlib_part_6(name: Seq<char>) -> bool {
    ||| name == "sched"@
    ||| name == "secrets"@
    ||| name == "select"@
    ||| name == "selectors"@
    ||| name == "shelve"@
    ||| name == "shlex"@
    ||| name == "shutil"@
    ||| name == "signal"@
    ||| name == "site"@
    ||| name == "smtpd"@
    ||| name == "smtplib"@
    ||| name == "sndhdr"@
    ||| name == "socket"@
    ||| name == "socketserver"@
    ||| name == "spwd"@
    ||| name == "sqlite3"@
    ||| name == "sre_compile"@
    ||| name == "sre_constants"@
    ||| name == "sre_parse"@
    ||| name == "ssl"@
    ||| name == "stat"@
    ||| name == "statistics"@
    ||| name == "string"@
    ||| name == "stringprep"@
    ||| name == "struct"@
    ||| name == "subprocess"@
    ||| name == "sunau"@
    ||| name == "symtable"@
    ||| name == "sys"@
    ||| name == "sysconfig"@
    ||| name == "syslog"@
}

fn in_stdlib_part_6(name: &Vec<char>) -> (r: bool)
    ensures
        r == stdlib_part_6(name@),
{
    is_name(name, "sched")
        || is_name(name, "secrets")
        || is_name(name, "select")
        || is_name(name, "selectors")
        || is_name(name, "shelve")
        || is_name(name, "shlex")
        || is_name(name, "shutil")
        || is_name(name, "signal")
        || is_name(name, "site")
        || is_name(name, "smtpd")
        || is_name(name, "smtplib")
        || is_name(name, "sndhdr")
        || is_name(name, "socket")
        || is_name(name, "socketserver")
        || is_name(name, "spwd")
        || is_name(name, "sqlite3")
        || is_name(name, "sre_compile")
        || is_name(name, "sre_constants")
        || is_name(name, "sre_parse")
        || is_name(name, "ssl")
        || is_name(name, "stat")
        || is_name(name, "statistics")
        || is_name(name, "string")
        || is_name(name, "stringprep")
        || is_name(name, "struct")
        || is_name(name, "subprocess")
        || is_name(name, "sunau")
        || is_name(name, "symtable")
        || is_name(name, "sys")
        || is_name(name, "sysconfig")
        || is_name(name, "syslog")
}

pub open spec fn stdlib_part_7(name: Seq<char>) -> bool {
    ||| name == "tabnanny"@
    ||| name == "tarfile"@
    ||| name == "telnetlib"@
    ||| name == "tempfile"@
    ||| name == "termios"@
    ||| name == "textwrap"@
    ||| name == "this"@
    ||| name == "threading"@
    ||| name == "time"@
    ||| name == "timeit"@
    ||| name == "tkinter"@
    ||| name == "token"@
    ||| name == "tokenize"@
    ||| name == "tomllib"@
    ||| name == "trace"@
    ||| name == "traceback"@
    ||| name == "tracemalloc"@
    ||| name == "tty"@
    ||| name == "turtle"@
    ||| name == "turtledemo"@
    ||| name == "types"@
    ||| name == "typing"@
    ||| name == "unicodedata"@
    ||| name == "unittest"@
    ||| name == "urllib"@
    ||| name == "uu"@
    ||| name == "uuid"@
    ||| name == "venv"@
    ||| name == "warnings"@
    ||| name == "wave"@
    ||| name == "weakref"@
    ||| name == "webbrowser"@
    ||| name == "winreg"@
    ||| name == "winsound"@
    ||| name == "wsgiref"@
    ||| name == "xdrlib"@
    ||| name == "xml"@
    ||| name == "xmlrpc"@
}

fn in_stdlib_part_7(name: &Vec<char>) -> (r: bool)
    ensures
        r == stdlib_part_7(name@),
{
    is_name(name, "tabnanny")
        || is_name(name, "tarfile")
        || is_name(name, "telnetlib")
        || is_name(name, "tempfile")
        || is_name(name, "termios")
        || is_name(name, "textwrap")
        || is_name(name, "this")
        || is_name(name, "threading")
        || is_name(name, "time")
        || is_name(name, "timeit")
        || is_name(name, "tkinter")
        || is_name(name, "token")
        || is_name(name, "tokenize")
        || is_name(name, "tomllib")
        || is_name(name, "trace")
        || is_name(name, "traceback")
        || is_name(name, "tracemalloc")
        || is_name(name, "tty")
        || is_name(name, "turtle")
        || is_name(name, "turtledemo")
        || is_name(name, "types")
        || is_name(name, "typing")
        || is_name(name, "unicodedata")
        || is_name(name, "unittest")
        || is_name(name, "urllib")
        || is_name(name, "uu")
        || is_name(name, "uuid")
        || is_name(name, "venv")
        || is_name(name, "warnings")
        || is_name(name, "wave")
        || is_name(name, "weakref")
        || is_name(name, "webbrowser")
        || is_name(name, "winreg")
        || is_name(name, "winsound")
        || is_name(name, "wsgiref")
        || is_name(name, "xdrlib")
        || is_name(name, "xml")
        || is_name(name, "xmlrpc")
}

pub open spec fn stdlib_part_8(name: Seq<char>) -> bool {
    ||| name == "zipapp"@
    ||| name == "zipfile"@
    ||| name == "zipimport"@
    ||| name == "zlib"@
    ||| name == "zoneinfo"@
}

fn in_stdlib_part_8(name: &Vec<char>) -> (r: bool)
    ensures
        r == stdlib_part_8(name@),
{
    is_name(name, "zipapp")
        || is_name(name, "zipfile")
        || is_name(name, "zipimport")
        || is_name(name, "zlib")
        || is_name(name, "zoneinfo")
}

/// `name` is a top-level module of the Python standard library.
pub open spec fn python_stdlib_module(name: Seq<char>) -> bool {
    ||| stdlib_part_1(name)
    ||| stdlib_part_2(name)
    ||| stdlib_part_3(name)
    ||| stdlib_part_4(name)
    ||| stdlib_part_5(name)
    ||| stdlib_part_6(name)
    ||| stdlib_part_7(name)
    ||| stdlib_part_8(name)
}

/// Tests whether `name` is a top-level module of the Python standard
/// library.
pub fn is_python_stdlib_module(name: &Vec<char>) -> (r: bool)
    ensures
        r == python_stdlib_module(name@),
{
    in_stdlib_part_1(name)
        || in_stdlib_part_2(name)
        || in_stdlib_part_3(name)
        || in_stdlib_part_4(name)
        || in_stdlib_part_5(name)
        || in_stdlib_part_6(name)
        || in_stdlib_part_7(name)
        || in_stdlib_part_8(name)
}

} // verus!
