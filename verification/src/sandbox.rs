//! The scripting sandbox's host-side fixed data: the pre-loaded library
//! catalogue, the environment bootstrap script, and the capability-binding
//! script built from the catalogue.  The engine itself, with its native
//! operations, runs outside the library.
use vstd::prelude::*;
use vstd::string::StringExecFns;

verus! {

/// What a pre-loaded sandbox library is for.
#[derive(Clone, Copy, PartialEq, Eq, Structural, Debug)]
pub enum LibCategory {
    Environment,
    DataProcessing,
    Visualization,
    Utility,
}

impl LibCategory {
    /// The heading the catalogue prints for the category.
    pub fn text(&self) -> (r: &'static str)
        ensures
            *self == LibCategory::Environment ==> r@ == "Environment"@,
            *self == LibCategory::DataProcessing ==> r@ == "Data Processing"@,
            *self == LibCategory::Visualization ==> r@ == "Visualization"@,
            *self == LibCategory::Utility ==> r@ == "Utilities"@,
    {
        match self {
            LibCategory::Environment => "Environment",
            LibCategory::DataProcessing => "Data Processing",
            LibCategory::Visualization => "Visualization",
            LibCategory::Utility => "Utilities",
        }
    }
}

/// One pre-loaded library: how scripts require it, the global it installs,
/// its category, and the usage hint shown in the prompt.  The bundled
/// sources live with the engine, outside the library.
pub struct LibraryEntry {
    pub require_name: &'static str,
    pub global_var: &'static str,
    pub category: LibCategory,
    pub prompt_hint: &'static str,
}

/// The fixed catalogue of pre-loaded libraries, in load order.
pub fn lib_catalogue() -> (r: Vec<LibraryEntry>)
    ensures
        r@.len() == 12,
{
    let mut v: Vec<LibraryEntry> = Vec::new();
    v.push(LibraryEntry {
        require_name: "linkedom",
        global_var: "LinkeDOM",
        category: LibCategory::Environment,
        prompt_hint: "`document`, `window`; NO canvas.",
    });
    v.push(LibraryEntry {
        require_name: "lodash",
        global_var: "_",
        category: LibCategory::DataProcessing,
        prompt_hint: "const users=[{n:'a',g:'tech'},{n:'b',g:'hr'},{n:'c',g:'tech'}];console.log(_.groupBy(users,'g'));",
    });
    v.push(LibraryEntry {
        require_name: "mathjs",
        global_var: "math",
        category: LibCategory::DataProcessing,
        prompt_hint: "math.evaluate('12.7 cm to inch').toString()",
    });
    v.push(LibraryEntry {
        require_name: "dayjs",
        global_var: "dayjs",
        category: LibCategory::DataProcessing,
        prompt_hint: "dayjs().format('YYYY-MM-DD HH:mm:ss')",
    });
    v.push(LibraryEntry {
        require_name: "papaparse",
        global_var: "Papa",
        category: LibCategory::DataProcessing,
        prompt_hint: "",
    });
    v.push(LibraryEntry {
        require_name: "arquero",
        global_var: "aq",
        category: LibCategory::DataProcessing,
        prompt_hint: "const dt=aq.table({a:[1,2,3],b:[4,5,6]});console.log(dt.filter(d=>d.a>1).derive({c:d=>d.a+d.b}).toCSV());",
    });
    v.push(LibraryEntry {
        require_name: "mustache",
        global_var: "Mustache",
        category: LibCategory::Utility,
        prompt_hint: "const htmlStr=Mustache.render(template,{title:\"A\",list:[\"1\",\"2\"]});",
    });
    v.push(LibraryEntry {
        require_name: "nerdamer",
        global_var: "nerdamer",
        category: LibCategory::DataProcessing,
        prompt_hint: "nerdamer('solve(x^2=4, x)').toString()",
    });
    v.push(LibraryEntry {
        require_name: "d3",
        global_var: "d3",
        category: LibCategory::Visualization,
        prompt_hint: "const svg=d3.create('svg').attr('width',400).attr('height',300);/*draw*/; save_svg(svg.node().outerHTML)",
    });
    v.push(LibraryEntry {
        require_name: "vega",
        global_var: "vega",
        category: LibCategory::Visualization,
        prompt_hint: "/*Spec must have width/height*/ const vegaSpec=vegaLite.compile(vlSpec).spec;const v=new vega.View(vega.parse(vegaSpec),{renderer:'svg'}).initialize(); save_svg(await v.toSVG());",
    });
    v.push(LibraryEntry {
        require_name: "vega-lite",
        global_var: "vegaLite",
        category: LibCategory::Visualization,
        prompt_hint: "",
    });
    v.push(LibraryEntry {
        require_name: "UPNG",
        global_var: "UPNG",
        category: LibCategory::DataProcessing,
        prompt_hint: "const b=new Uint8Array([255,0,0,255]).buffer;UPNG.encode([b],width,height,depth);",
    });
    v
}

/// The categories in the order the catalogue lists them.
fn display_order() -> (r: Vec<LibCategory>)
    ensures
        r@.len() == 4,
{
    let mut v: Vec<LibCategory> = Vec::new();
    v.push(LibCategory::DataProcessing);
    v.push(LibCategory::Visualization);
    v.push(LibCategory::Environment);
    v.push(LibCategory::Utility);
    v
}

/// The catalogue digest for the tool description: per category, the
/// requirable names with their globals.
pub fn generate_libs_list() -> String {
    let cats = display_order();
    let libs = lib_catalogue();
    let mut out = String::new();
    let mut first_cat: bool = true;
    let mut ci: usize = 0;
    while ci < cats.len()
        decreases cats@.len() - ci,
    {
        let cat = cats[ci];
        let mut items = String::new();
        let mut first: bool = true;
        let mut li: usize = 0;
        while li < libs.len()
            decreases libs@.len() - li,
        {
            let l = &libs[li];
            if l.category == cat && l.prompt_hint.len() > 0 {
                if !first {
                    items.append(",");
                }
                items.append(l.require_name);
                items.append("(");
                items.append(l.global_var);
                items.append(")");
                first = false;
            }
            li = li + 1;
        }
        if !first {
            if !first_cat {
                out.append(";");
            }
            out.append(cat.text());
            out.append(":");
            out.append(items.as_str());
            first_cat = false;
        }
        ci = ci + 1;
    }
    out
}

/// The usage cheatsheet for the tool description: one hint per library
/// that has one.
pub fn generate_cheatsheet_prompt() -> String {
    let libs = lib_catalogue();
    let mut out = String::new();
    let mut first: bool = true;
    let mut li: usize = 0;
    while li < libs.len()
        decreases libs@.len() - li,
    {
        let l = &libs[li];
        if l.prompt_hint.len() > 0 {
            if !first {
                out.append("\n");
            }
            out.append("**");
            out.append(l.require_name);
            out.append("**:");
            out.append(l.prompt_hint);
            first = false;
        }
        li = li + 1;
    }
    out
}

/// The environment bootstrap run before any library loads: console,
/// timers, text codecs, base64 and a performance clock, all bound to the
/// host's native operations.
pub fn get_env_script() -> &'static str {
    r#"
    globalThis.console = {
        log: (...args) => {
            let msg = args.map(String).join(" ");
            Deno.core.ops.console_op_print(msg + "\n", false);
        },
        error: (...args) => {
            let msg = args.map(String).join(" ");
            Deno.core.ops.console_op_print("stderr: " + msg + "\n", true);
        },
        warn: (...args) => {
            let msg = args.map(String).join(" ");
            Deno.core.ops.console_op_print("warn: " + msg + "\n", false);
        },
        info: (...args) => {
            let msg = args.map(String).join(" ");
            Deno.core.ops.console_op_print("info: " + msg + "\n", false);
        },
        trace: (...args) => {
            let msg = args.map(String).join(" ");
            Deno.core.ops.console_op_print("trace: " + msg + "\n", false);
        },
        table: (data) => {
            Deno.core.ops.console_op_print((Array.isArray(data) ? JSON.stringify(data) : String(data)) + "\n", false);
        }
    };
    globalThis.console.warn = globalThis.console.log;
    globalThis.console.info = globalThis.console.log;
    globalThis.console.trace = globalThis.console.log;

    if (typeof setTimeout === "undefined") {
        globalThis.setTimeout = (cb, delay, ...args) => {
            queueMicrotask(() => {
                if (typeof cb === 'string') {
                    (0, eval)(cb);
                } else {
                    cb(...args);
                }});
            return 1;
        };
        globalThis.clearTimeout = (_id) => {};
    }

    if (typeof setInterval === "undefined") {
        globalThis.setInterval = (cb, delay, ...args) => {
            // 警告：为了防止 D3 timer 陷入死循环，这里 Mock 为只运行一次
            queueMicrotask(() => cb(...args));
            return 1;
        };
        globalThis.clearInterval = (_id) => {};
    }
    // --- TextEncoder / TextDecoder (UTF-8) ---
    if (typeof TextEncoder === "undefined") {
        globalThis.TextEncoder = class TextEncoder {
            get encoding() { return "utf-8"; }
            encode(input) {
                const str = input === undefined ? "" : String(input);
                return Deno.core.ops.op_text_encode(str);
            }
            encodeInto(source, destination) {
                const encoded = this.encode(source);
                const len = Math.min(encoded.length, destination.length);
                destination.set(encoded.subarray(0, len));
                return { read: source.length, written: len };
            }
        };
    }

    if (typeof TextDecoder === "undefined") {
        globalThis.TextDecoder = class TextDecoder {
            constructor(label = "utf-8", options = {}) {
                // 目前只支持 utf-8，忽略 label
                this.encoding = "utf-8";
                this.fatal = options.fatal || false;
                this.ignoreBOM = options.ignoreBOM || false;
            }
            decode(input, options) {
                let buffer;
                if (input === undefined) {
                    buffer = new Uint8Array(0);
                } else if (input instanceof ArrayBuffer) {
                    buffer = new Uint8Array(input);
                } else if (ArrayBuffer.isView(input)) {
                    buffer = new Uint8Array(input.buffer, input.byteOffset, input.byteLength);
                } else {
                    throw new TypeError("Failed to execute 'decode' on 'TextDecoder': The provided value is not of type '(ArrayBuffer or ArrayBufferView)'");
                }
                return Deno.core.ops.op_text_decode(buffer);
            }
        };
    }

    // --- URL / URLSearchParams ---
    if (typeof URL === "undefined") {
        globalThis.URL = class URL {
            constructor(url, base) {
                this.href = url;
                this.searchParams = new URLSearchParams();
            }
        };
        globalThis.URLSearchParams = class URLSearchParams {
            constructor(init) { this.params = new Map(); }
            get(name) { return this.params.get(name); }
            set(name, val) { this.params.set(name, val); }
        };
    }

    globalThis.btoa = (str) => {
        const encoder = new TextEncoder();
        return Deno.core.ops.op_base64_encode(str);
    };

    globalThis.atob = (base64) => {
        const bytes = Deno.core.ops.op_base64_decode(base64);
        return new TextDecoder().decode(bytes);
    };

    globalThis.Base64 = {
        encode: (data) => {
            const bytes = typeof data === 'string' ? new TextEncoder().encode(data) : data;
            return Deno.core.ops.op_base64_encode(bytes);
        },
        decode: (str) => Deno.core.ops.op_base64_decode(str) // 返回 Uint8Array
    };

    // --- Performance ---
    if (typeof performance === "undefined") {
        globalThis.performance = { now: () => Deno.core.ops.op_performance_now() };
    }
"#
}

/// The in-memory file table the sandbox exposes as `fs`.
fn memfs_script() -> &'static str {
    r#"
    const MEMFS_LIMIT = 50 * 1024 * 1024;
    const vfs = new Map();
    let currentSize = 0;

    function normalizePath(p) {
        return p.replace(/^[\.\/]+/, '');
    }

    const MemFS = {
        writeFileSync: (path, data, options) => {
            const key = normalizePath(path);
            let content;

            // 统一转为 Uint8Array
            if (typeof data === 'string') {
                content = new TextEncoder().encode(data);
            } else if (data instanceof Uint8Array) {
                content = data;
            } else {
                // 尝试处理 buffer-like
                content = new Uint8Array(data);
            }

            // 检查大小限制
            const newSize = content.length;
            const oldSize = vfs.has(key) ? vfs.get(key).length : 0;

            if (currentSize - oldSize + newSize > MEMFS_LIMIT) {
                throw new Error(`❌ MemFS Limit Exceeded: Cannot write file '${path}'. Storage full.`);
            }

            vfs.set(key, content);
            currentSize = currentSize - oldSize + newSize;
            return undefined;
        },

        readFileSync: (path, options) => {
            const key = normalizePath(path);

            if (vfs.has(key)) {
                const data = vfs.get(key);
                // 处理编码参数 (简单支持 utf8)
                if (options === 'utf8' || (typeof options === 'object' && options.encoding === 'utf8')) {
                    return new TextDecoder().decode(data);
                }
                return data;
            }

            if (globalThis.contain_blob('asset', key)) {
                try {
                    const bytes = globalThis.load_blob('asset', key);
                    if (options === 'utf8' || (typeof options === 'object' && options.encoding === 'utf8')) {
                        return new TextDecoder().decode(bytes);
                    }
                    return bytes;
                } catch (e) {
                    throw new Error(`ENOENT: no such file or directory, open '${path}'. \n(Also failed to load blob by UUID from DB)`);
                }
            }

            if (globalThis.contain_blob('image', key)){
                try {
                    const bytes = globalThis.load_blob('image', key);
                    if (options === 'utf8' || (typeof options === 'object' && options.encoding === 'utf8')) {
                        return new TextDecoder().decode(bytes);
                    }
                    return bytes;
                } catch (e) {
                    throw new Error(`ENOENT: no such file or directory, open '${path}'. \n(Also failed to load blob by UUID from DB)`);
                }
            }
            throw new Error(`ENOENT: no such file or directory, open '${path}'. `);
        },

        existsSync: (path) => {
            const key = normalizePath(path);
            return vfs.has(key) || globalThis.contain_blob('image', key) || globalThis.contain_blob('asset', key);
        },
        mkdirSync: () => {},
        statSync: (path) => {
            const key = normalizePath(path);
            if (!vfs.has(key)) throw new Error(`ENOENT: '${path}'`);
            return { isFile: () => true, isDirectory: () => false, size: vfs.get(key).length };
        },
        unlinkSync: (path) => {
                const key = normalizePath(path);
                if (vfs.has(key)) {
                    currentSize -= vfs.get(key).length;
                    vfs.delete(key);
                }
        },
        readdirSync: () => Array.from(vfs.keys()),

        // Promise 版本
        promises: {
            readFile: async (...args) => MemFS.readFileSync(...args),
            writeFile: async (...args) => MemFS.writeFileSync(...args),
            unlink: async (...args) => MemFS.unlinkSync(...args),
            mkdir: async () => {},
            stat: async (...args) => MemFS.statSync(...args),
            access: async (path) => { if (!MemFS.existsSync(path)) throw new Error('ENOENT'); }
        }
    };
    globalThis.fs = MemFS;
    globalThis.process = {
        env: {},
        version: 'v16.0.0',
        versions: { node: '16.0.0' },
        platform: 'browser',
        browser: true,
        cwd: () => '/',
        stdout: { write: (msg) => console.log(msg) },
        stderr: { write: (msg) => console.error(msg) },
        nextTick: (cb, ...args) => queueMicrotask(() => cb(...args))
    };
"#
}

/// The capability-binding script run after the libraries load: the
/// in-memory file table, `require`, and the blob, SVG and QR bindings.
pub fn get_setup_script() -> String {
    let libs = lib_catalogue();
    let mut cases = String::new();
    let mut names = String::new();
    let mut li: usize = 0;
    while li < libs.len()
        decreases libs@.len() - li,
    {
        let l = &libs[li];
        cases.append("case '");
        cases.append(l.require_name);
        cases.append("': return globalThis['");
        cases.append(l.global_var);
        cases.append("'];\n");
        if li > 0 {
            names.append(", ");
        }
        names.append(l.require_name);
        li = li + 1;
    }
    let mut out = String::new();
    out.append(r#"if (typeof structuredClone === "undefined" && typeof _ !== "undefined") {
        globalThis.structuredClone = (value) => _.cloneDeep(value);
    } else if (typeof structuredClone === "undefined") {
        globalThis.structuredClone = (value) => JSON.parse(JSON.stringify(value));
    }
    "#);
    out.append(memfs_script());
    out.append(r#"
    globalThis.require = function(name) {
        switch(name) {
            "#);
    out.append(cases.as_str());
    out.append(r#"
            case 'fs': return MemFS;
            case 'fs/promises': return MemFS.promises;
            case 'path': return {
                resolve: (...args) => args.join('/').replace(/\/+/g, '/'),
                join: (...args) => args.join('/').replace(/\/+/g, '/'),
                basename: (p) => p.split('/').pop(),
                extname: (p) => {{ const i = p.lastIndexOf('.'); return i < 0 ? '' : p.slice(i); }}
            };

            case 'os': return {
                platform: () => 'browser',
                arch: () => 'x64',
                tmpdir: () => '/tmp'
            };
            default: throw new Error(`❌ Module '${name}' not found. Available: "#);
    out.append(names.as_str());
    out.append(r#"`);
        }
    };
    function op_anybuffer_to_uint8array(data) {
        let buffer;
        if (data instanceof ArrayBuffer){
            buffer = new Uint8Array(data);
        } else if (data instanceof Array) {
            buffer = Uint8Array.from(data);
        } else if (typeof data === 'string') {
            const binString = atob(data);
            buffer = new Uint8Array(binString.length);
            for (let i = 0; i < binString.length; i++) {
                buffer[i] = binString.charCodeAt(i);
            }
        } else if (data instanceof Uint8Array) {
            buffer = data;
        }else {
            buffer = UInt8Array.from(data);
        }
        return buffer;
    }

    globalThis.html = (content) => {
        return "{FN_RAWHTML}" + content;
    };
    globalThis.svg = (content) => {
        return "{FN_RAWSVG}" + content;
    };

    globalThis.load_blob = (schema, uuid) => Deno.core.ops.op_load_blob(schema, uuid);
    globalThis.save_blob = (schema, img) => {
        const img_bin = op_anybuffer_to_uint8array(img);
        return Deno.core.ops.op_save_blob(schema, img_bin);
    };
    globalThis.save_svg = (svg) => Deno.core.ops.op_save_svg(svg);
    globalThis.contain_blob = (uuid) => Deno.core.ops.op_contain_blob(uuid);
    globalThis.convert_to_png = (img) => {
        const img_bin = op_anybuffer_to_uint8array(img);
        return Deno.core.ops.op_convert_to_png(img_bin);
    };
    globalThis.QRCode = {
        save: (text, format = 'png') => {
            const str = String(text);
            if (!str) throw new Error("QRCode: Text cannot be empty");
            switch (format.toLowerCase()) {
                case 'png': {
                    const bytes = Deno.core.ops.op_qrcode_png(str);
                    return save_blob('image', bytes);
                }
                case 'svg': {
                    const svgStr = Deno.core.ops.op_qrcode_svg(str);
                    return Deno.core.ops.op_save_svg(svgStr);
                }
                default:
                    throw new Error(`QRCode: Unsupported format '${format}'. Use 'png' or 'svg'.`);
            }
        },
        encode: (text, format = 'png') => {
            const str = String(text);
            switch (format.toLowerCase()) {
                case 'png': return Deno.core.ops.op_qrcode_png(str); // Returns Uint8Array
                case 'svg': return Deno.core.ops.op_qrcode_svg(str); // Returns String
                default: throw new Error(`QRCode: Unsupported format '${format}'`);
            }
        },
        decode: (input) => {
            let buffer;
            if (typeof input === 'string') {
                try {
                    buffer = globalThis.load_blob('image', input);
                } catch (e) {
                    throw new Error("QRCode.decode: Failed to retrieve image from UUID.");
                }
            } else if (input instanceof Uint8Array) {
                buffer = input;
            } else {
                throw new Error("QRCode.decode: Input must be Uint8Array or Image UUID string.");
            }
            return Deno.core.ops.op_qrcode_decode(buffer);
        }
    };"#);
    out
}

} // verus!
